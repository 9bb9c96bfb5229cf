//! Signing identities, team identifiers and what `codesign` says of a signature.

use neo::command::{display_command, CommandOutput};
use neo::failure::Failure;
use neo::nested::Entry;
use neo::pipeline::{Action, Event, Manner};
use neo::signatures::{CheckStage, SignatureCheck};
use neo::signing::{
    configured_signing_team_identifier, installed_identity, judge_item, override_identity,
    sign_command, signing_identity, signing_team_identifier, validate_signature_details,
    validate_signature_executable, validate_signing_identity, verify_signing_team_identifier,
    SIGNING_TEAM_IDENTIFIER_ENV,
};

const VALID: &str = "Executable=/tmp/NEO.app/Contents/MacOS/neo\nIdentifier=com.superneo.neo\nCodeDirectory v=20500 flags=0x10000(runtime) hashes=1+1 location=embedded\nAuthority=Developer ID Application: Example Corporation (TEAMID1234)\nTimestamp=Aug 21, 2026\nTeamIdentifier=TEAMID1234\n";

fn refusal<T>(result: Result<T, Failure>) -> String {
    match result {
        Ok(_) => panic!("accepted"),
        Err(refusal) => refusal.message().to_string(),
    }
}

fn wrote(stdout: &str, stderr: &str) -> Result<CommandOutput, String> {
    Ok(CommandOutput {
        success: true,
        status: "exit status: 0".to_string(),
        stdout: stdout.as_bytes().to_vec(),
        stderr: stderr.as_bytes().to_vec(),
    })
}

#[test]
fn accepts_developer_id_signing_identity() {
    assert!(validate_signing_identity("Developer ID Application: Example Corporation").is_ok());
}

#[test]
fn rejects_non_developer_id_signing_identity() {
    assert!(validate_signing_identity("-").is_err());
    assert!(validate_signing_identity("Apple Development: Example Corporation").is_err());
}

#[test]
fn validates_developer_id_signature_details() {
    let valid = VALID;
    assert!(validate_signature_details(valid, Some("com.superneo.neo"), "TEAMID1234").is_ok());

    for invalid in [
        valid.replace("Timestamp=Aug 21, 2026", "Signed Time=Aug 21, 2026"),
        valid.replace("flags=0x10000(runtime)", "flags=0x0(none)"),
        valid.replace("Developer ID Application:", "Apple Development:"),
        valid.replace("TeamIdentifier=TEAMID1234", "TeamIdentifier=OTHERTEAM"),
        valid.replace(
            "Identifier=com.superneo.neo",
            "Identifier=com.example.other",
        ),
    ] {
        assert!(
            validate_signature_details(&invalid, Some("com.superneo.neo"), "TEAMID1234").is_err()
        );
    }
}

#[test]
fn names_what_a_signature_lacks() {
    let check = |details: &str| {
        refusal(validate_signature_details(
            details,
            Some("com.superneo.neo"),
            "TEAMID1234",
        ))
    };
    assert_eq!(
        check(""),
        "codesign output has no Developer ID Application authority"
    );
    assert_eq!(
        check(&VALID.replace("(runtime)", "(none)")),
        "codesign output has no hardened runtime flag"
    );
    assert_eq!(
        check(&VALID.replace("Timestamp", "Time")),
        "codesign output has no secure Timestamp line"
    );
    assert_eq!(
        check(&format!("{VALID}Signed Time=today\n")),
        "codesign output has Signed Time instead of a secure timestamp"
    );
    assert_eq!(
        check(&VALID.replace("TeamIdentifier", "Team")),
        "codesign output has no TeamIdentifier"
    );
    assert_eq!(
        check(&VALID.replace("TeamIdentifier=TEAMID1234", "TeamIdentifier=OTHERTEAM")),
        "signature TeamIdentifier OTHERTEAM does not match TEAMID1234"
    );
    assert_eq!(
        check(&VALID.replace("\nIdentifier=com.superneo.neo", "")),
        "codesign output has no Identifier"
    );
    assert_eq!(
        check(&VALID.replace("=com.superneo.neo", "=com.example.other")),
        "signature Identifier com.example.other does not match CFBundleIdentifier com.superneo.neo"
    );
    let other = VALID.replace("=com.superneo.neo", "=com.example.other");
    validate_signature_details(&other, None, "TEAMID1234").unwrap();
}

#[test]
fn extracts_signing_team_identifier() {
    assert_eq!(
        signing_team_identifier("Developer ID Application: Example Corporation (TEAMID1234)")
            .unwrap(),
        "TEAMID1234"
    );
}

#[test]
fn requires_a_team_in_brackets() {
    assert_eq!(
        signing_team_identifier("Developer ID Application: A (B) (TEAM)").unwrap(),
        "TEAM"
    );
    for identity in ["", "Developer ID Application: A", "A(TEAM)", "A ()", "A (TEAM) "] {
        assert_eq!(
            refusal(signing_team_identifier(identity)),
            "Developer ID Application identity has no team identifier"
        );
    }
}

#[test]
fn signing_team_configuration_fails_closed_when_unset() {
    let error = refusal(configured_signing_team_identifier(None));
    assert!(error.contains(SIGNING_TEAM_IDENTIFIER_ENV));
    assert!(error.contains("is not set"));
}

#[test]
fn rejects_invalid_signing_team_configuration() {
    for value in ["", "short", "lowercase1", "TEAM-ID123"] {
        let error = refusal(configured_signing_team_identifier(Some(value.as_bytes())));
        assert!(error.contains(SIGNING_TEAM_IDENTIFIER_ENV));
    }
}

#[test]
fn rejects_team_configuration_that_is_not_unicode() {
    assert_eq!(
        refusal(configured_signing_team_identifier(Some(b"TEAM\xff"))),
        "NEO_SIGNING_TEAM_IDENTIFIER must contain valid Unicode"
    );
    assert_eq!(
        refusal(configured_signing_team_identifier(Some(
            "TEAMID12\u{e9}".as_bytes()
        ))),
        "NEO_SIGNING_TEAM_IDENTIFIER must be a 10-character uppercase ASCII team identifier"
    );
}

#[test]
fn signing_team_assertion_rejects_wrong_identifier() {
    let error = refusal(verify_signing_team_identifier("TEAMID1234", "OTHER12345"));
    assert!(error.contains("does not match"));
    assert!(error.contains(SIGNING_TEAM_IDENTIFIER_ENV));
}

#[test]
fn accepts_matching_signing_team_identifier() {
    let expected = configured_signing_team_identifier(Some(b"TEAMID1234")).unwrap();
    verify_signing_team_identifier("TEAMID1234", &expected).unwrap();
}

#[test]
fn takes_the_identity_of_the_override() {
    let chosen = override_identity(b"Developer ID Application: Example (TEAMID1234)").unwrap();
    assert_eq!(
        chosen.identity,
        "Developer ID Application: Example (TEAMID1234)"
    );
    assert_eq!(
        chosen.report,
        "using signing identity from NEO_SIGNING_IDENTITY: Developer ID Application: Example (TEAMID1234)"
    );
    assert_eq!(
        refusal(override_identity(b"\xff")),
        "NEO_SIGNING_IDENTITY must contain valid Unicode"
    );
    assert_eq!(
        refusal(override_identity(" \u{3000}\t".as_bytes())),
        "NEO_SIGNING_IDENTITY is empty"
    );
    assert_eq!(
        refusal(override_identity(b"-")),
        "NEO_SIGNING_IDENTITY must start with Developer ID Application:"
    );
}

#[test]
fn selects_the_only_installed_identity() {
    let one = "  1) ABCDEF \"Developer ID Application: Example (TEAMID1234)\"\n";
    let other = "  2) ABCDEF \"Apple Development: Example (TEAMID1234)\"\n";
    let chosen = installed_identity(&wrote(
        &format!("{one}{other}     2 valid identities found\n"),
        "",
    ))
    .unwrap();
    assert_eq!(
        chosen.identity,
        "Developer ID Application: Example (TEAMID1234)"
    );
    assert_eq!(
        chosen.report,
        "selected signing identity: Developer ID Application: Example (TEAMID1234)"
    );
    assert_eq!(
        refusal(installed_identity(&wrote(other, ""))),
        "no Developer ID Application identity found; set NEO_SIGNING_IDENTITY to override"
    );
    assert_eq!(
        refusal(installed_identity(&wrote(&format!("{one}{one}"), ""))),
        "multiple Developer ID Application identities found; set NEO_SIGNING_IDENTITY to choose one"
    );
}

#[test]
fn judges_the_two_streams_of_codesign_together() {
    judge_item(
        b"/tmp/NEO.app",
        &wrote("", VALID),
        Some("com.superneo.neo"),
        "TEAMID1234",
    )
    .unwrap();
    let failed = Ok(CommandOutput {
        success: false,
        status: "exit status: 1".to_string(),
        stdout: Vec::new(),
        stderr: b"not signed\n".to_vec(),
    });
    assert_eq!(
        refusal(judge_item(b"/tmp/NEO.app", &failed, None, "TEAMID1234")),
        "codesign -dvvv /tmp/NEO.app exited with exit status: 1: not signed"
    );
}

#[test]
fn signs_with_the_hardened_runtime() {
    let command = sign_command("Developer ID", b"/r/NEO.entitlements", b"/r/NEO.app");
    assert_eq!(command.program, "codesign");
    let arguments: Vec<&[u8]> = command.arguments.iter().map(Vec::as_slice).collect();
    assert_eq!(
        arguments,
        [
            b"--force".as_slice(),
            b"--sign",
            b"Developer ID",
            b"--options",
            b"runtime",
            b"--timestamp",
            b"--entitlements",
            b"/r/NEO.entitlements",
            b"/r/NEO.app",
        ]
    );
}

#[test]
fn keeps_the_signed_executable_inside_the_app() {
    let app = Ok(b"/tmp/NEO.app".to_vec());
    validate_signature_executable(VALID, &Ok(b"/tmp/NEO.app/Contents/MacOS/neo".to_vec()), &app)
        .unwrap();
    assert_eq!(
        refusal(validate_signature_executable(
            VALID,
            &Ok(b"/tmp/NEO.appendix/neo".to_vec()),
            &app
        )),
        "signed executable resolves outside the app bundle: /tmp/NEO.appendix/neo"
    );
    assert_eq!(
        refusal(validate_signature_executable(
            "",
            &Ok(b"/tmp/NEO.app/neo".to_vec()),
            &app
        )),
        "codesign output has no Executable path"
    );
    assert_eq!(
        refusal(validate_signature_executable(
            VALID,
            &Err("gone".to_string()),
            &app
        )),
        "gone"
    );
}

fn check(events: Vec<Event>) -> Result<SignatureCheck, Failure> {
    let mut check = SignatureCheck::start(b"/tmp/NEO.app", "com.superneo.neo", "TEAMID1234");
    for event in events {
        check = check.advance(&event)?;
    }
    Ok(check)
}

fn listed() -> Event {
    Event::Entries(Ok(vec![Entry::Directory {
        path: b"/tmp/NEO.app/Contents".to_vec(),
        entries: Ok(vec![Entry::Directory {
            path: b"/tmp/NEO.app/Contents/Helpers".to_vec(),
            entries: Ok(vec![Entry::File {
                path: b"/tmp/NEO.app/Contents/Helpers/helper".to_vec(),
                mode: Ok(0o755),
            }]),
        }]),
    }]))
}

fn shown(check: &SignatureCheck) -> String {
    match check.action() {
        Action::Run(command, Manner::Quiet) => display_command(&command),
        other => format!("{other:?}"),
    }
}

#[test]
fn checks_every_signed_item() {
    let helper = VALID.replace("=com.superneo.neo", "=com.superneo.helper");
    let first = check(vec![listed()]).unwrap();
    assert_eq!(
        shown(&first),
        "codesign -dvvv /tmp/NEO.app/Contents/Helpers/helper"
    );
    let second = first.advance(&Event::Ran(wrote("", &helper))).unwrap();
    assert_eq!(shown(&second), "codesign -dvvv /tmp/NEO.app");
    let third = second.advance(&Event::Ran(wrote("", VALID))).unwrap();
    assert!(
        matches!(third.action(), Action::Resolve(path) if path == b"/tmp/NEO.app/Contents/MacOS/neo")
    );
    let fourth = third
        .advance(&Event::Resolved(Ok(b"/private/tmp/NEO.app/Contents/MacOS/neo".to_vec())))
        .unwrap();
    assert!(matches!(fourth.action(), Action::Resolve(path) if path == b"/tmp/NEO.app"));
    let done = fourth
        .advance(&Event::Resolved(Ok(b"/private/tmp/NEO.app".to_vec())))
        .unwrap();
    assert_eq!(done.stage(), CheckStage::Done);
    assert!(matches!(done.action(), Action::Finish));
}

#[test]
fn refuses_items_that_are_not_signed_by_the_team() {
    let helper = VALID.replace("=com.superneo.neo", "=com.superneo.helper");
    let foreign = VALID.replace("TEAMID1234", "OTHERTEAM1");
    assert_eq!(
        refusal(check(vec![listed(), Event::Ran(wrote("", &foreign))])),
        refusal(validate_signature_details(&foreign, None, "TEAMID1234"))
    );
    assert_eq!(
        refusal(check(vec![listed(), Event::Ran(wrote("", ""))])),
        "codesign output has no Developer ID Application authority"
    );
    assert_eq!(
        refusal(check(vec![
            Event::Entries(Ok(Vec::new())),
            Event::Ran(wrote("", &helper)),
        ])),
        "signature Identifier com.superneo.helper does not match CFBundleIdentifier com.superneo.neo"
    );
    assert_eq!(
        refusal(check(vec![
            Event::Entries(Ok(Vec::new())),
            Event::Ran(wrote("", VALID)),
            Event::Resolved(Ok(b"/tmp/other".to_vec())),
            Event::Resolved(Ok(b"/tmp/NEO.app".to_vec())),
        ])),
        "signed executable resolves outside the app bundle: /tmp/other"
    );
    assert_eq!(
        refusal(check(vec![Event::Entries(Err("cannot list".to_string()))])),
        "cannot list"
    );
    let app = check(vec![Event::Entries(Ok(Vec::new()))]).unwrap();
    assert_eq!(app.stage(), CheckStage::Inspecting);
    assert_eq!(shown(&app), "codesign -dvvv /tmp/NEO.app");
}

#[test]
fn prefers_the_identity_of_the_override() {
    let installed = wrote(
        "  1) AB \"Developer ID Application: Installed (TEAMID1234)\"\n",
        "",
    );
    let chosen = signing_identity(
        Some(b"Developer ID Application: Override (TEAMID1234)"),
        &installed,
    )
    .unwrap();
    assert_eq!(chosen.identity, "Developer ID Application: Override (TEAMID1234)");
    let chosen = signing_identity(None, &installed).unwrap();
    assert_eq!(chosen.identity, "Developer ID Application: Installed (TEAMID1234)");
    assert_eq!(
        chosen.report,
        "selected signing identity: Developer ID Application: Installed (TEAMID1234)"
    );
    assert_eq!(
        refusal(signing_identity(Some(b" "), &installed)),
        "NEO_SIGNING_IDENTITY is empty"
    );
    assert_eq!(
        refusal(signing_identity(None, &Err("gone".to_string()))),
        "gone"
    );
}
