//! What Cargo says of a release build, and what the built executable holds.

use neo::artifact::{
    is_expected_metal_tool_command, release_executable_from_messages, verify_deployment_target,
    verify_effective_release_artifact, EXPECTED_METAL_TOOL_PREFIX, EXPECTED_METAL_TOOL_SUFFIX,
};
use neo::command::CommandOutput;
use neo::failure::Failure;

fn refusal<T>(result: Result<T, Failure>) -> String {
    match result {
        Ok(_) => panic!("accepted"),
        Err(refusal) => refusal.message().to_string(),
    }
}

fn wrote(stdout: &[u8]) -> Result<CommandOutput, String> {
    Ok(CommandOutput {
        success: true,
        status: "exit status: 0".to_string(),
        stdout: stdout.to_vec(),
        stderr: Vec::new(),
    })
}

fn message(opt_level: &str, debug_assertions: bool, overflow_checks: bool) -> String {
    format!(
        "{{\"reason\":\"compiler-artifact\",\"target\":{{\"name\":\"neo\",\"kind\":[\"bin\"]}},\"profile\":{{\"opt_level\":\"{opt_level}\",\"debug_assertions\":{debug_assertions},\"overflow_checks\":{overflow_checks},\"debuginfo\":0}},\"executable\":\"/target/release/neo\"}}"
    )
}

fn read(messages: &str) -> Result<Vec<u8>, Failure> {
    release_executable_from_messages(messages.as_bytes(), &mut Vec::new())
}

#[test]
fn accepts_variable_metal_mount_discriminators() {
    for discriminator in ["s18CDK", "UqzdZ2"] {
        assert!(is_expected_metal_tool_command(&format!(
            "{EXPECTED_METAL_TOOL_PREFIX}{discriminator}{EXPECTED_METAL_TOOL_SUFFIX}"
        )));
    }
}

#[test]
fn rejects_unexpected_metal_tool_fingerprints() {
    for command in [
        format!("{EXPECTED_METAL_TOOL_PREFIX}short{EXPECTED_METAL_TOOL_SUFFIX}"),
        format!("{EXPECTED_METAL_TOOL_PREFIX}bad/ID{EXPECTED_METAL_TOOL_SUFFIX}"),
        format!(
            "{}s18CDK{EXPECTED_METAL_TOOL_SUFFIX}",
            EXPECTED_METAL_TOOL_PREFIX.replace("17.6.109.0", "17.7.0.0")
        ),
        format!("{EXPECTED_METAL_TOOL_PREFIX}s18CDK/other/metallib"),
    ] {
        assert!(!is_expected_metal_tool_command(&command));
    }
}

#[test]
fn accepts_release_compiler_artifact_profile() {
    let mut reports = Vec::new();
    let messages = message("3", false, false);
    let path = release_executable_from_messages(messages.as_bytes(), &mut reports).unwrap();
    assert_eq!(path, b"/target/release/neo");
    assert_eq!(
        reports,
        ["verified release compiler artifact profile: opt_level=\"3\", debug_assertions=false, overflow_checks=false, debuginfo=0; executable=/target/release/neo"]
    );
}

#[test]
fn rejects_unoptimized_release_compiler_artifact_profile() {
    let error = refusal(read(&message("0", false, false)));
    assert!(error.contains("opt_level=\"0\""));
}

#[test]
fn rejects_unexpected_optimized_release_compiler_artifact_profile() {
    let error = refusal(read(&message("1", false, false)));
    assert!(error.contains("opt_level=\"1\""));
}

#[test]
fn rejects_debug_assertions_in_release_compiler_artifact_profile() {
    let error = refusal(read(&message("3", true, false)));
    assert!(error.contains("debug_assertions=true"));
}

#[test]
fn rejects_overflow_checks_in_release_compiler_artifact_profile() {
    let error = refusal(read(&message("3", false, true)));
    assert!(error.contains("overflow_checks=true"));
}

#[test]
fn passes_over_other_compiler_messages() {
    let other = message("0", true, true).replace("\"neo\",\"kind\"", "\"libneo\",\"kind\"");
    let library = message("0", true, true).replace("\"bin\"", "\"lib\"");
    let finished = "{\"reason\":\"build-finished\",\"success\":true}";
    let messages = format!(
        "{other}\n\n{library}\n{}\n{finished}\n",
        message("s", false, false)
    );
    assert_eq!(read(&messages).unwrap(), b"/target/release/neo");
    assert_eq!(
        refusal(read(&format!("{other}\n{finished}"))),
        "Cargo emitted no compiler artifact for the neo bin target"
    );
    assert_eq!(
        refusal(read("")),
        "Cargo emitted no compiler artifact for the neo bin target"
    );
}

#[test]
fn takes_the_last_compiler_artifact() {
    let second = message("z", false, false).replace("/target/release/neo", "/other/neo");
    let messages = format!("{}\n{second}", message("2", false, false));
    let mut reports = vec!["before".to_string()];
    let path = release_executable_from_messages(messages.as_bytes(), &mut reports).unwrap();
    assert_eq!(path, b"/other/neo");
    assert_eq!(reports.len(), 3);
    assert_eq!(reports[0], "before");
}

#[test]
fn reports_the_compiler_artifacts_before_the_refused_one() {
    let messages = format!(
        "{}\n{}\n{}",
        message("3", false, false),
        message("0", false, false),
        message("2", false, false)
    );
    let mut reports = Vec::new();
    let refused = refusal(release_executable_from_messages(
        messages.as_bytes(),
        &mut reports,
    ));
    assert!(refused.contains("opt_level=\"0\""));
    assert_eq!(
        reports,
        ["verified release compiler artifact profile: opt_level=\"3\", debug_assertions=false, overflow_checks=false, debuginfo=0; executable=/target/release/neo"]
    );
}

#[test]
fn names_what_a_compiler_artifact_lacks() {
    let whole = message("3", false, false);
    for (part, refused) in [
        ("\"opt_level\":\"3\",", "neo compiler artifact has no profile.opt_level"),
        (
            "\"debug_assertions\":false,",
            "neo compiler artifact has no profile.debug_assertions",
        ),
        (
            "\"overflow_checks\":false,",
            "neo compiler artifact has no profile.overflow_checks",
        ),
        (
            ",\"executable\":\"/target/release/neo\"",
            "neo compiler artifact has no executable path",
        ),
    ] {
        assert_eq!(refusal(read(&whole.replace(part, ""))), refused);
    }
    for value in ["\"line-tables-only\"", "1.5", "-1"] {
        let changed = whole.replace("\"debuginfo\":0", &format!("\"debuginfo\":{value}"));
        assert_eq!(
            refusal(read(&changed)),
            "neo compiler artifact has no profile.debuginfo"
        );
    }
    assert_eq!(
        refusal(read(&whole.replace("\"debuginfo\":0", "\"debuginfo\":2"))),
        "neo compiler artifact has unexpected release profile: opt_level=\"3\", debug_assertions=false, overflow_checks=false, debuginfo=2"
    );
    let expected = serde_json::from_slice::<serde_json::Value>(b"{")
        .unwrap_err()
        .to_string();
    assert_eq!(
        refusal(read("{")),
        format!("invalid Cargo JSON message: {expected}")
    );
}

#[test]
fn verifies_the_effective_artifact() {
    let metal = format!("{EXPECTED_METAL_TOOL_PREFIX}s18CDK{EXPECTED_METAL_TOOL_SUFFIX}");
    let strings = format!("/cargo/a\n/source/b\nelsewhere /cargo/c\n{metal}\n");
    let check = |symbols: &[u8], strings: &str| {
        verify_effective_release_artifact(b"/neo", &wrote(symbols), &wrote(strings.as_bytes()))
    };
    assert_eq!(
        check(b"0 T _main\n", &strings).unwrap(),
        "verified effective release artifact: OSO entries=0, overflow panic strings=0, remapped paths=2, Metal toolchain fingerprint=expected"
    );
    assert_eq!(
        refusal(check(b"0 OSO a\n1 OSO b\n", &strings)),
        "release artifact contains 2 OSO entries: /neo"
    );
    assert_eq!(
        refusal(check(b"", &format!("{strings}attempt to add with overflow\n"))),
        "release artifact contains 1 overflow-check panic strings: /neo"
    );
    assert_eq!(
        refusal(check(b"", &metal)),
        "release artifact contains no /cargo/ or /source/ paths; path remapping did not run: /neo"
    );
    assert_eq!(
        refusal(check(b"", "/cargo/a\n")),
        "release artifact has an unexpected Metal toolchain fingerprint: []"
    );
    assert_eq!(
        refusal(check(
            b"",
            "/cargo/a\n/private/var/run/com.apple.security.cryptexd/\"x\"\n/private/var/run/com.apple.security.cryptexd/y"
        )),
        "release artifact has an unexpected Metal toolchain fingerprint: [\"/private/var/run/com.apple.security.cryptexd/\\\"x\\\"\", \"/private/var/run/com.apple.security.cryptexd/y\"]"
    );
    assert_eq!(
        refusal(verify_effective_release_artifact(
            b"/neo",
            &Err("no nm".to_string()),
            &wrote(b"")
        )),
        "no nm"
    );
}

#[test]
fn reads_the_deployment_target() {
    let commands = b"Load command 9\n      cmd LC_UUID\n    minos 1.0\n      cmd LC_BUILD_VERSION\n  cmdsize 32\n platform 1\n    minos 26.1 \n      sdk 26.5\n";
    assert_eq!(
        verify_deployment_target(b"/neo", "26.1", &wrote(commands)).unwrap(),
        "verified deployment target: LC_BUILD_VERSION minos=26.1"
    );
    assert_eq!(
        refusal(verify_deployment_target(b"/neo", "26.0", &wrote(commands))),
        "LC_BUILD_VERSION minos 26.1 does not match LSMinimumSystemVersion 26.0"
    );
    assert_eq!(
        refusal(verify_deployment_target(
            b"/neo",
            "26.1",
            &wrote(b"cmd LC_BUILD_VERSION\ncmd LC_UUID\nminos 26.1\n")
        )),
        "Mach-O has no LC_BUILD_VERSION minos value"
    );
    assert_eq!(
        refusal(verify_deployment_target(b"/neo", "26.1", &wrote(b"\xff"))),
        String::from_utf8(b"\xff".to_vec()).unwrap_err().to_string()
    );
}
