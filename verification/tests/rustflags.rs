//! Compiler flags, the environment and the arguments of the program.

use neo::arguments::{parse_arguments, Task, USAGE};
use neo::command::CommandOutput;
use neo::environment::{
    find_listed_value, parent_environment_value, reject_ambient_release_environment, Environment,
};
use neo::failure::Failure;
use neo::release_build::PackageProfile;
use neo::rustflags::{reject_profile_codegen_rustflags, release_rustflags};

fn refusal<T>(result: Result<T, Failure>) -> String {
    match result {
        Ok(_) => panic!("accepted"),
        Err(refusal) => refusal.message().to_string(),
    }
}

fn bytes(items: &[&str]) -> Vec<Vec<u8>> {
    items.iter().map(|item| item.as_bytes().to_vec()).collect()
}

fn variables(items: &[(&str, &str)]) -> Environment {
    Environment {
        variables: items
            .iter()
            .map(|(name, value)| (name.as_bytes().to_vec(), value.as_bytes().to_vec()))
            .collect(),
    }
}

fn wrote(stdout: &str) -> Result<CommandOutput, String> {
    Ok(CommandOutput {
        success: true,
        status: "exit status: 0".to_string(),
        stdout: stdout.as_bytes().to_vec(),
        stderr: Vec::new(),
    })
}

#[test]
fn encoded_release_rustflags_override_plain_rustflags() {
    let rustflags = release_rustflags(
        Some("-C\u{1f}target-cpu=native".as_bytes()),
        Some(b"--cfg ignored"),
    );
    assert_eq!(rustflags, bytes(&["-C", "target-cpu=native"]));
}

#[test]
fn plain_release_rustflags_split_only_on_spaces() {
    let rustflags = release_rustflags(None, Some(b"  -C  debuginfo=0\t--cfg release_probe "));
    assert_eq!(
        rustflags,
        bytes(&["-C", "debuginfo=0\t--cfg", "release_probe"])
    );
}

#[test]
fn no_rustflags_where_none_are_set() {
    assert!(release_rustflags(None, None).is_empty());
    assert!(release_rustflags(Some(b""), Some(b"--cfg ignored")).is_empty());
}

#[test]
fn rejects_profile_codegen_rustflags() {
    for option in [
        "opt-level=0",
        "debug-assertions=on",
        "overflow-checks=on",
        "debuginfo=2",
        "panic=abort",
        "strip=none",
        "lto=off",
        "codegen-units=256",
    ] {
        for rustflags in [
            bytes(&["-C", option]),
            vec![format!("-C{option}").into_bytes()],
        ] {
            let error = refusal(reject_profile_codegen_rustflags(&rustflags));
            assert!(error.contains(option.split_once('=').unwrap().0));
        }
    }
}

#[test]
fn accepts_non_profile_codegen_rustflags() {
    let rustflags = bytes(&["-C", "target-cpu=native", "--cfg", "release_probe"]);
    reject_profile_codegen_rustflags(&rustflags).unwrap();
}

#[test]
fn pairs_each_codegen_flag_with_the_next() {
    assert_eq!(
        refusal(reject_profile_codegen_rustflags(&bytes(&["-C=lto"]))),
        "release rustflags cannot set lto; remove this profile-owned codegen option"
    );
    reject_profile_codegen_rustflags(&bytes(&["-C"])).unwrap();
    reject_profile_codegen_rustflags(&bytes(&["-C", "-C", "opt-level=0"])).unwrap();
    reject_profile_codegen_rustflags(&bytes(&["-C", "opt-levels=0"])).unwrap();
}

#[test]
fn accepts_a_plain_environment() {
    let environment = variables(&[("HOME", "/home"), ("MACOSX_DEPLOYMENT_TARGET", "26.1")]);
    reject_ambient_release_environment("26.1", &environment, &Ok(None)).unwrap();
}

#[test]
fn rejects_an_environment_that_changes_releases() {
    let check = |items: &[(&str, &str)]| {
        refusal(reject_ambient_release_environment(
            "26.1",
            &variables(items),
            &Ok(None),
        ))
    };
    for name in [
        "RUSTC",
        "RUSTC_WRAPPER",
        "RUSTC_WORKSPACE_WRAPPER",
        "SDKROOT",
        "DEVELOPER_DIR",
    ] {
        assert_eq!(
            check(&[("HOME", "/home"), (name, "")]),
            format!("ambient {name} is unsupported for release packaging")
        );
    }
    assert_eq!(
        check(&[("MACOSX_DEPLOYMENT_TARGET", "11.0")]),
        "MACOSX_DEPLOYMENT_TARGET=11.0 does not match the in-tree value 26.1"
    );
    assert_eq!(
        check(&[("CARGO_BUILD_RUSTFLAGS", "")]),
        "CARGO_BUILD_RUSTFLAGS conflicts with release rustflags; pass supported flags through RUSTFLAGS or CARGO_ENCODED_RUSTFLAGS"
    );
    assert_eq!(
        check(&[
            ("CARGO_PROFILE_RELEASE_STRIP", "none"),
            ("CARGO_PROFILE_RELEASE_LTO", "off"),
            ("CARGO_PROFILE_DEV_LTO", "off"),
        ]),
        "release profile override environment variable CARGO_PROFILE_RELEASE_LTO is unsupported"
    );
    assert_eq!(
        refusal(reject_ambient_release_environment(
            "26.1",
            &variables(&[]),
            &Ok(Some(b"11.0".to_vec()))
        )),
        "ambient MACOSX_DEPLOYMENT_TARGET=11.0 is unsupported; the in-tree value is 26.1"
    );
}

#[test]
fn finds_a_value_of_the_parent_process() {
    let listing = "cargo xtask HOME=/home MACOSX_DEPLOYMENT_TARGET=11.0 A=B";
    assert_eq!(
        parent_environment_value("7", &wrote(" 5\n"), &wrote(listing), "MACOSX_DEPLOYMENT_TARGET")
            .unwrap(),
        Some(b"11.0".to_vec())
    );
    assert_eq!(
        parent_environment_value("7", &wrote("5"), &wrote(listing), "OTHER").unwrap(),
        None
    );
    assert_eq!(
        refusal(parent_environment_value("7", &wrote(" \n"), &wrote(listing), "A")),
        "cannot determine the parent process"
    );
    assert_eq!(find_listed_value(b"XA=1 A=2\nA=3", "A"), Some(b"2".to_vec()));
}

#[test]
fn places_follow_the_environment() {
    let plain = variables(&[("HOME", "/home")]);
    assert_eq!(plain.home().unwrap(), b"/home");
    assert_eq!(plain.cargo_home(b"/home"), b"/home/.cargo");
    assert_eq!(plain.target(b"/repository"), b"/repository/target");
    assert_eq!(
        plain.configured_release_executable(b"/repository"),
        b"/repository/target/release/neo"
    );
    let set = variables(&[("CARGO_HOME", "/cargo"), ("CARGO_TARGET_DIR", "/out")]);
    assert_eq!(refusal(set.home()), "HOME is not set");
    assert_eq!(set.cargo_home(b"/home"), b"/cargo");
    assert_eq!(
        set.configured_release_executable(b"/repository"),
        b"/out/release/neo"
    );
}

#[test]
fn knows_its_tasks() {
    let parse = |items: &[&str]| parse_arguments(&bytes(items));
    assert!(matches!(parse(&["check-source"]), Ok(Task::CheckSource)));
    assert!(matches!(parse(&["check-sdk"]), Ok(Task::CheckSdk)));
    assert!(matches!(
        parse(&["package"]),
        Ok(Task::Package(PackageProfile::Release))
    ));
    assert!(matches!(
        parse(&["package", "--debug"]),
        Ok(Task::Package(PackageProfile::Debug))
    ));
    assert!(matches!(parse(&["sign"]), Ok(Task::Sign)));
    assert!(matches!(parse(&["notarize"]), Ok(Task::Notarize)));
    match parse(&["local-cargo", "check", "--all"]) {
        Ok(Task::LocalCargo(arguments)) => assert_eq!(arguments, bytes(&["check", "--all"])),
        _ => panic!("not a Cargo command"),
    }
    for items in [
        &[][..],
        &["local-cargo"],
        &["package", "--release"],
        &["sign", "now"],
        &["other"],
    ] {
        assert_eq!(refusal(parse(items)), USAGE);
    }
}
