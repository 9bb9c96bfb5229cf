//! The preparation of a release build: the toolchain, the aliases, the wrapper and the commands.

use neo::command::{display_command, run_command, CommandOutput, Invocation};
use neo::configuration::ReleaseConfiguration;
use neo::environment::Environment;
use neo::failure::Failure;
use neo::local::{configured_checkout, local_command, local_patch, toml_string, DEFAULT_CHECKOUT};
use neo::manifest::{verify_toolchain, TargetContext};
use neo::nested::{nested_code, Entry};
use neo::pipeline::{Action, Event};
use neo::preparation::{Preparation, PrepareStage};
use neo::release::SettingsFacts;
use neo::release_build::{
    debug_build_command, ensure_symlink, packager_command, plan_release, prepare_xcrun_wrapper,
    prepend_path, release_build_command, require_tool_version, AliasAction, AliasState,
    PackageProfile, ReleaseBuildEnvironment, ReleasePlan, WrapperState, WRAPPER,
};
use neo::walk::{ConfigurationWalk, Visit};

fn refusal<T>(result: Result<T, Failure>) -> String {
    match result {
        Ok(_) => panic!("accepted"),
        Err(refusal) => refusal.message().to_string(),
    }
}

fn wrote(stdout: &str) -> Result<CommandOutput, String> {
    Ok(CommandOutput {
        success: true,
        status: "exit status: 0".to_string(),
        stdout: stdout.as_bytes().to_vec(),
        stderr: Vec::new(),
    })
}

fn variables(items: &[(&str, &str)]) -> Environment {
    Environment {
        variables: items
            .iter()
            .map(|(name, value)| (name.as_bytes().to_vec(), value.as_bytes().to_vec()))
            .collect(),
    }
}

fn plan(flags: &[&str], matching: bool) -> ReleasePlan {
    ReleasePlan {
        home: b"/home/a".to_vec(),
        cargo_home: b"/home/a/.cargo".to_vec(),
        target: b"/neo/target".to_vec(),
        configuration: ReleaseConfiguration {
            in_tree_build_rustflags: flags.iter().map(|flag| flag.as_bytes().to_vec()).collect(),
            has_matching_target_rustflags: matching,
        },
        triple: "aarch64-apple-darwin".to_string(),
    }
}

fn prepared(plan: &ReleasePlan, environment: &Environment) -> Result<ReleaseBuildEnvironment, Failure> {
    ReleaseBuildEnvironment::new(plan, b"/neo", environment, b"/cargo-home", b"/neo/target")
}

#[test]
fn hands_remapped_flags_to_cargo() {
    let environment = variables(&[("PATH", "/usr/bin:/bin"), ("RUSTFLAGS", "--cfg probe")]);
    let build = prepared(&plan(&["--cfg", "in_tree"], false), &environment).unwrap();
    assert_eq!(
        build.rustflags_config,
        "build.rustflags=[\"--cfg\", \"probe\", \"--remap-path-prefix=/home/a=/build\", \"--remap-path-prefix=/neo=/source\", \"--remap-path-prefix=/neo/.neo-release/cargo=/cargo\", \"--remap-path-prefix=/neo/.neo-release/target=/target\"]"
    );
    assert_eq!(build.path, b"/neo/.neo-release/bin:/usr/bin:/bin");
    assert_eq!(build.cargo_home, b"/cargo-home");
    let build = prepared(&plan(&["--cfg", "in_tree"], true), &environment).unwrap();
    assert!(build.rustflags_config.starts_with(
        "target.\"aarch64-apple-darwin\".rustflags=[\"--cfg\", \"in_tree\", \"--cfg\", \"probe\", \"--remap-path-prefix="
    ));
}

#[test]
fn refuses_flags_of_the_profile_and_flags_that_are_no_text() {
    assert_eq!(
        refusal(prepared(&plan(&[], false), &variables(&[("RUSTFLAGS", "-Clto")]))),
        "release rustflags cannot set lto; remove this profile-owned codegen option"
    );
    let mut environment = variables(&[("RUSTFLAGS", "")]);
    environment.variables[0].1 = b"--cfg \xff".to_vec();
    assert_eq!(
        refusal(prepared(&plan(&[], false), &environment)),
        "release rustflags must contain valid Unicode"
    );
}

#[test]
fn quotes_flags_as_the_outside_writer_does() {
    let environment = variables(&[("CARGO_ENCODED_RUSTFLAGS", "--cfg\u{1f}feature=\"a b\"\u{1f}it's")]);
    let build = prepared(&plan(&[], false), &environment).unwrap();
    let text = build.rustflags_config.strip_prefix("build.rustflags=").unwrap();
    let value = format!("x = {text}").parse::<toml::Value>().unwrap();
    let flags: Vec<&str> = value["x"]
        .as_array()
        .unwrap()
        .iter()
        .map(|flag| flag.as_str().unwrap())
        .collect();
    assert_eq!(&flags[..3], ["--cfg", "feature=\"a b\"", "it's"]);
    assert_eq!(flags.len(), 7);
}

#[test]
fn builds_in_the_prepared_environment() {
    let build = prepared(&plan(&[], false), &variables(&[])).unwrap();
    let command = release_build_command(&build);
    assert_eq!(
        display_command(&command),
        format!(
            "cargo --config {} build --locked --package neo --release --message-format=json-render-diagnostics",
            build.rustflags_config
        )
    );
    let names: Vec<(&str, bool)> = command
        .variables
        .iter()
        .map(|(name, value)| (name.as_str(), value.is_some()))
        .collect();
    assert_eq!(
        names,
        [
            ("CARGO_HOME", true),
            ("CARGO_TARGET_DIR", true),
            ("NEO_RELEASE_HOME", true),
            ("NEO_RELEASE_ROOT", true),
            ("NEO_RELEASE_CARGO_HOME", true),
            ("NEO_RELEASE_CARGO_ALIAS", true),
            ("NEO_RELEASE_TARGET", true),
            ("NEO_RELEASE_TARGET_ALIAS", true),
            ("PATH", true),
            ("CARGO_BUILD_RUSTFLAGS", false),
            ("CARGO_ENCODED_RUSTFLAGS", false),
            ("RUSTFLAGS", false),
        ]
    );
    assert_eq!(
        command.variables[0].1,
        Some(b"/neo/.neo-release/cargo".to_vec())
    );
    assert_eq!(
        display_command(&packager_command(None, PackageProfile::Debug)),
        "cargo packager --packages neo"
    );
    assert!(
        display_command(&packager_command(Some(&build), PackageProfile::Release))
            .ends_with(" packager --packages neo --release")
    );
    assert_eq!(
        display_command(&debug_build_command()),
        "cargo build --locked --package neo"
    );
}

#[test]
fn links_the_aliases() {
    let check = |state: AliasState| ensure_symlink(b"/cargo", b"/alias", &state);
    assert_eq!(
        check(AliasState::Link(Ok(b"/cargo/".to_vec()))).unwrap(),
        AliasAction::Keep
    );
    assert_eq!(
        check(AliasState::Link(Ok(b"/other".to_vec()))).unwrap(),
        AliasAction::Replace
    );
    assert_eq!(check(AliasState::Missing).unwrap(), AliasAction::Create);
    assert_eq!(
        refusal(check(AliasState::Other)),
        "release build alias is not a symlink: /alias"
    );
    assert_eq!(
        refusal(check(AliasState::Link(Err("gone".to_string())))),
        "gone"
    );
    assert_eq!(
        refusal(check(AliasState::Fault("closed".to_string()))),
        "closed"
    );
}

#[test]
fn refuses_a_wrapper_directory_with_a_colon() {
    assert_eq!(
        refusal(prepend_path(b"/a:b", None)),
        "path segment contains separator `:`"
    );
    assert_eq!(prepend_path(b"/a", None).unwrap(), b"/a");
    assert_eq!(prepend_path(b"/a", Some(b"")).unwrap(), b"/a:");
}

#[test]
fn writes_the_wrapper_where_it_differs() {
    let step = |state, event| prepare_xcrun_wrapper(b"/bin/xcrun", state, &event);
    let read = |contents| Event::Found(contents);
    assert_eq!(
        step(WrapperState::Reading, read(Ok(None))).unwrap(),
        WrapperState::Writing
    );
    assert_eq!(
        step(WrapperState::Reading, read(Ok(Some(b"old".to_vec())))).unwrap(),
        WrapperState::Writing
    );
    assert_eq!(
        step(
            WrapperState::Reading,
            read(Ok(Some(WRAPPER.as_bytes().to_vec())))
        )
        .unwrap(),
        WrapperState::Inspecting
    );
    assert_eq!(
        step(WrapperState::Writing, Event::Done(Ok(()))).unwrap(),
        WrapperState::Inspecting
    );
    assert_eq!(
        step(WrapperState::Inspecting, Event::Done(Ok(()))).unwrap(),
        WrapperState::MakingExecutable
    );
    assert_eq!(
        step(WrapperState::MakingExecutable, Event::Done(Ok(()))).unwrap(),
        WrapperState::Ready
    );
    assert_eq!(
        refusal(step(WrapperState::Reading, read(Err("closed".to_string())))),
        "cannot read xcrun wrapper /bin/xcrun: closed"
    );
    for (state, text) in [
        (WrapperState::Writing, "cannot write xcrun wrapper /bin/xcrun: no"),
        (WrapperState::Inspecting, "cannot inspect xcrun wrapper /bin/xcrun: no"),
        (
            WrapperState::MakingExecutable,
            "cannot make xcrun wrapper executable /bin/xcrun: no",
        ),
    ] {
        assert_eq!(
            refusal(step(state, Event::Done(Err("no".to_string())))),
            text
        );
    }
    assert!(WRAPPER.starts_with("#!/bin/sh\n"));
    assert!(WRAPPER.ends_with("exec /usr/bin/xcrun \"$@\"\n"));
}

#[test]
fn requires_the_pinned_tools() {
    require_tool_version("packager", "cargo-packager 0.11.8", &wrote("cargo-packager 0.11.8\n")).unwrap();
    assert_eq!(
        refusal(require_tool_version(
            "packager",
            "cargo-packager 0.11.8",
            &wrote("cargo-packager 0.11.7\n")
        )),
        "cargo-packager 0.11.8 is required, found \"cargo-packager 0.11.7\"; install it with `cargo install cargo-packager --version 0.11.8 --locked`"
    );
}

#[test]
fn requires_the_pinned_toolchain() {
    let toolchain = Ok("[toolchain]\nchannel = \"1.90\"\n".to_string());
    let version = |release: &str| wrote(&format!("rustc {release}\nrelease: {release}\nhost: h\n"));
    assert_eq!(
        verify_toolchain(b"/neo", &toolchain, &version("1.90.0")).unwrap(),
        "verified Rust toolchain: release=1.90.0, channel=1.90"
    );
    verify_toolchain(b"/neo", &toolchain, &version("1.90")).unwrap();
    assert_eq!(
        refusal(verify_toolchain(b"/neo", &toolchain, &version("1.900.0"))),
        "rustc release 1.900.0 does not match rust-toolchain.toml channel 1.90"
    );
    assert_eq!(
        refusal(verify_toolchain(b"/neo", &toolchain, &wrote("rustc"))),
        "rustc -vV output has no release"
    );
    assert_eq!(
        refusal(verify_toolchain(b"/neo", &Ok(String::new()), &version("1.90"))),
        "/neo/rust-toolchain.toml has no toolchain.channel"
    );
}

#[test]
fn knows_its_host() {
    let version = wrote("rustc 1.90.0\nhost: aarch64-apple-darwin\n");
    let target = TargetContext::host(&version, &wrote("unix\ntarget_os=\"macos\"\n")).unwrap();
    assert_eq!(target.triple(), "aarch64-apple-darwin");
    assert_eq!(target.is_selected_by("aarch64-apple-darwin"), Ok(true));
    assert_eq!(target.is_selected_by("x86_64-apple-darwin"), Ok(false));
    assert_eq!(target.is_selected_by("cfg(unix)"), Ok(true));
    assert_eq!(target.is_selected_by("cfg(windows)"), Ok(false));
    assert!(target.is_selected_by("cfg(").is_err());
    assert_eq!(
        refusal(TargetContext::host(&wrote("host: \n"), &wrote(""))),
        "rustc -vV output has no host triple"
    );
    let fault = "unix=".parse::<cargo_platform::Cfg>().unwrap_err();
    assert_eq!(
        refusal(TargetContext::host(&version, &wrote("unix=\n"))),
        fault.to_string()
    );
}

/// Visits to the configuration files of a repository that has none.
fn unconfigured(root: &[u8], cargo_home: &[u8]) -> Vec<Visit> {
    let mut visits = Vec::new();
    let mut walk = ConfigurationWalk::start(root, cargo_home);
    while walk.next().is_some() {
        let visit = Visit {
            contents: Ok(None),
            canonical: Err("no such file".to_string()),
        };
        walk = walk.advance(&visit.contents, &visit.canonical).unwrap();
        visits.push(visit);
    }
    visits
}

#[test]
fn plans_a_release() {
    let mut facts = SettingsFacts {
        manifest: Ok("[package]\nversion = \"1\"\n[package.metadata.packager]\ncopyright = \"c\"\nidentifier = \"i\"\nmacos.minimum-system-version = \"26.1\"\n".to_string()),
        environment: variables(&[("HOME", "/home/a"), ("CARGO_TARGET_DIR", "/out")]),
        process: "7".to_string(),
        parent: wrote("5\n"),
        parent_environment: wrote("cargo xtask"),
        version: wrote("host: t\nrelease: 1.90.1\n"),
        cfg: wrote(""),
        root: Ok(b"/neo".to_vec()),
        visits: unconfigured(b"/neo", b"/home/a/.cargo"),
    };
    let toolchain = Ok("toolchain.channel = \"1.90\"".to_string());
    let mut reports = Vec::new();
    let plan = plan_release(b"/neo", &facts, &toolchain, &mut reports).unwrap();
    assert_eq!(plan.home, b"/home/a");
    assert_eq!(plan.cargo_home, b"/home/a/.cargo");
    assert_eq!(plan.target, b"/out");
    assert_eq!(plan.triple, "t");
    let told = ["verified Rust toolchain: release=1.90.1, channel=1.90"];
    assert_eq!(reports, told);
    assert!(!plan.configuration.has_matching_target_rustflags);
    let mut plan = |facts: &SettingsFacts| {
        reports.clear();
        let refused = refusal(plan_release(b"/neo", facts, &toolchain, &mut reports));
        (refused, reports.clone())
    };
    facts.cfg = wrote("unix=\n");
    let (refused, reports) = plan(&facts);
    assert_eq!(
        refused,
        refusal(TargetContext::host(&facts.version, &facts.cfg))
    );
    assert_eq!(reports, told);
    facts.environment = variables(&[]);
    assert_eq!(plan(&facts), ("HOME is not set".to_string(), Vec::new()));
    facts.parent = wrote("");
    assert_eq!(
        plan(&facts),
        ("cannot determine the parent process".to_string(), Vec::new())
    );
}

#[test]
fn shows_commands_with_their_arguments() {
    let command = Invocation::new("codesign")
        .text("--verify")
        .arg(b"/a\xff b");
    assert_eq!(display_command(&command), "codesign --verify /a\u{fffd} b");
    let failed = Ok(CommandOutput {
        success: false,
        status: "exit status: 3".to_string(),
        stdout: Vec::new(),
        stderr: b"text".to_vec(),
    });
    assert_eq!(
        refusal(run_command(&command, &failed)),
        "codesign --verify /a\u{fffd} b exited with exit status: 3"
    );
    assert_eq!(
        refusal(run_command(&command, &Err("not found".to_string()))),
        "not found"
    );
}

#[test]
fn patches_both_crates_of_the_checkout() {
    let command = local_command(DEFAULT_CHECKOUT, &vec![b"check".to_vec()]);
    assert_eq!(
        display_command(&command),
        "cargo --config patch.\"https://github.com/superneoai/libneo.git\".libneo.path=\"../libneo/crates/libneo\" --config patch.\"https://github.com/superneoai/libneo.git\".libneo-gpui.path=\"../libneo/crates/libneo-gpui\" check"
    );
}

#[test]
fn quotes_the_checkout_as_toml_does() {
    for checkout in ["../libneo", "/a \"b\"\\c", "/tab\tbell\u{7}delete\u{7f}", "/caf\u{e9}\u{301}\u{200b}"] {
        let setting = local_patch(checkout, "libneo");
        let setting: toml::Table = setting.parse().unwrap();
        let path = setting["patch"]["https://github.com/superneoai/libneo.git"]["libneo"]["path"]
            .as_str()
            .unwrap()
            .to_string();
        assert_eq!(path, format!("{checkout}/crates/libneo"));
    }
    assert_eq!(toml_string("a\u{1f}\"\\\u{e9}"), "\"a\\u001F\\\"\\\\\u{e9}\"");
}

fn entry(path: &str, mode: u32) -> Entry {
    Entry::File {
        path: path.as_bytes().to_vec(),
        mode: Ok(mode),
    }
}

fn directory(path: &str, entries: Vec<Entry>) -> Entry {
    Entry::Directory {
        path: path.as_bytes().to_vec(),
        entries: Ok(entries),
    }
}

#[test]
fn finds_nested_code_innermost_first() {
    let entries = Ok(vec![directory(
        "/NEO.app/Contents",
        vec![
            directory(
                "/NEO.app/Contents/MacOS",
                vec![
                    entry("/NEO.app/Contents/MacOS/neo", 0o755),
                    entry("/NEO.app/Contents/MacOS/a.dylib", 0o755),
                ],
            ),
            directory(
                "/NEO.app/Contents/Frameworks",
                vec![directory(
                    "/NEO.app/Contents/Frameworks/A.framework",
                    vec![
                        entry("/NEO.app/Contents/Frameworks/A.framework/A", 0o755),
                        entry("/NEO.app/Contents/Frameworks/A.framework/data", 0o644),
                        Entry::Link,
                    ],
                )],
            ),
            directory(
                "/NEO.app/Contents/Resources",
                vec![
                    entry("/NEO.app/Contents/Resources/tool", 0o755),
                    entry("/NEO.app/Contents/Resources/b.so", 0o644),
                ],
            ),
            directory("/NEO.app/Contents/Helpers", vec![entry("/NEO.app/Contents/Helpers/h", 0o711)]),
        ],
    )]);
    let found: Vec<String> = nested_code(b"/NEO.app", &entries)
        .unwrap()
        .into_iter()
        .map(|path| String::from_utf8(path).unwrap())
        .collect();
    assert_eq!(
        found,
        [
            "/NEO.app/Contents/Frameworks/A.framework/A",
            "/NEO.app/Contents/Frameworks/A.framework",
            "/NEO.app/Contents/Resources/b.so",
            "/NEO.app/Contents/Helpers/h",
        ]
    );
}

#[test]
fn refuses_code_that_cannot_be_listed() {
    assert_eq!(
        refusal(nested_code(b"/NEO.app", &Err("closed".to_string()))),
        "closed"
    );
    assert_eq!(
        refusal(nested_code(
            b"/NEO.app",
            &Ok(vec![Entry::Fault("broken".to_string())])
        )),
        "broken"
    );
    let unknown = Entry::File {
        path: b"/NEO.app/Contents/Helpers/h".to_vec(),
        mode: Err("gone".to_string()),
    };
    assert_eq!(refusal(nested_code(b"/NEO.app", &Ok(vec![unknown]))), "gone");
    let outside = std::path::Path::new("/other").strip_prefix("/NEO.app").unwrap_err();
    assert_eq!(
        refusal(nested_code(b"/NEO.app", &Ok(vec![entry("/other", 0o755)]))),
        outside.to_string()
    );
}

#[test]
fn takes_the_checkout_of_the_variable() {
    assert_eq!(configured_checkout(None).unwrap(), "../libneo");
    assert_eq!(configured_checkout(Some(b"../other")).unwrap(), "../other");
    assert_eq!(configured_checkout(Some(b"")).unwrap(), "");
    assert_eq!(
        refusal(configured_checkout(Some(b"\xff"))),
        "NEO_LOCAL_LIBNEO_PATH must contain valid Unicode"
    );
}

fn started() -> Preparation {
    Preparation::start(
        b"/neo",
        plan(&[], false),
        &variables(&[("HOME", "/home/a"), ("PATH", "/bin")]),
    )
}

fn advanced(events: Vec<Event>) -> Result<Preparation, Failure> {
    let mut preparation = started();
    for event in events {
        preparation = preparation.advance(&event)?;
    }
    Ok(preparation)
}

fn resolved() -> Vec<Event> {
    vec![
        Event::Done(Ok(())),
        Event::Resolved(Ok(b"/real/cargo".to_vec())),
        Event::Resolved(Ok(b"/real/target".to_vec())),
        Event::Done(Ok(())),
    ]
}

#[test]
fn prepares_the_build_step_by_step() {
    assert!(
        matches!(started().action(), Action::MakeDirectory(path) if path == b"/neo/target")
    );
    let preparation = advanced(resolved()).unwrap();
    assert!(
        matches!(preparation.action(), Action::LookAtAlias(path) if path == b"/neo/.neo-release/cargo")
    );
    let preparation = preparation
        .advance(&Event::Alias(AliasState::Link(Ok(b"/old".to_vec()))))
        .unwrap();
    assert!(
        matches!(preparation.action(), Action::Remove(path) if path == b"/neo/.neo-release/cargo")
    );
    let preparation = preparation.advance(&Event::Done(Ok(()))).unwrap();
    assert!(
        matches!(preparation.action(), Action::Link(target, alias) if target == b"/real/cargo" && alias == b"/neo/.neo-release/cargo")
    );
    let preparation = preparation.advance(&Event::Done(Ok(()))).unwrap();
    let preparation = preparation
        .advance(&Event::Alias(AliasState::Link(Ok(b"/real/target".to_vec()))))
        .unwrap();
    assert!(
        matches!(preparation.action(), Action::MakeDirectory(path) if path == b"/neo/.neo-release/bin")
    );
    let preparation = preparation.advance(&Event::Done(Ok(()))).unwrap();
    assert!(
        matches!(preparation.action(), Action::ReadIfThere(path) if path == b"/neo/.neo-release/bin/xcrun")
    );
    let preparation = preparation.advance(&Event::Found(Ok(None))).unwrap();
    assert!(
        matches!(preparation.action(), Action::Write(_, contents) if contents == WRAPPER.as_bytes())
    );
    let preparation = preparation.advance(&Event::Done(Ok(()))).unwrap();
    let preparation = preparation.advance(&Event::Done(Ok(()))).unwrap();
    assert!(matches!(preparation.action(), Action::SetMode(_, 0o755)));
    assert!(preparation.environment().is_none());
    let preparation = preparation.advance(&Event::Done(Ok(()))).unwrap();
    assert_eq!(preparation.stage(), PrepareStage::Ready);
    let environment = preparation.environment().unwrap();
    assert_eq!(environment.cargo_home, b"/real/cargo");
    assert_eq!(environment.target, b"/real/target");
    assert_eq!(environment.path, b"/neo/.neo-release/bin:/bin");
}

#[test]
fn preparing_stops_at_a_refusal() {
    assert_eq!(
        refusal(advanced(vec![Event::Done(Err("full".to_string()))])),
        "full"
    );
    let mut events = resolved();
    events.push(Event::Alias(AliasState::Other));
    assert_eq!(
        refusal(advanced(events)),
        "release build alias is not a symlink: /neo/.neo-release/cargo"
    );
    let mut events = resolved();
    events.extend([
        Event::Alias(AliasState::Missing),
        Event::Done(Ok(())),
        Event::Alias(AliasState::Missing),
        Event::Done(Err("closed".to_string())),
    ]);
    assert_eq!(refusal(advanced(events)), "closed");
}
