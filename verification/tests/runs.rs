//! The runs that package, sign and notarize, and that which runs Cargo with a local checkout, on a
//! machine of their own.

use neo::artifact::{EXPECTED_METAL_TOOL_PREFIX, EXPECTED_METAL_TOOL_SUFFIX};
use neo::bundle::{
    ExecutableFacts, FileFacts, LegalFacts, BUNDLED_LICENSE, BUNDLED_NOTICES, NOTICES,
};
use neo::command::{display_command, CommandOutput};
use neo::environment::Environment;
use neo::failure::Failure;
use neo::hygiene::MachineFacts;
use neo::local::{LocalRun, LocalStage};
use neo::nested::Entry;
use neo::notarize::{NotarizeRun, NotarizeStage};
use neo::package::{PackageRun, PackageStage};
use neo::pipeline::{Action, Event, Manner};
use neo::release::{BundleFacts, SettingsFacts};
use neo::release_build::{AliasState, PackageProfile, WRAPPER};
use neo::sign::{SignRun, SignStage};
use neo::walk::{ConfigurationWalk, Visit};
use std::collections::BTreeMap;

const MANIFEST: &str = "[package]\nversion = \"0.0.1\"\n[package.metadata.packager]\ncopyright = \"c\"\nidentifier = \"com.superneo.neo\"\n[package.metadata.packager.macos]\nminimum-system-version = \"26.1\"\n";

const INFO: &str = "<?xml version=\"1.0\" encoding=\"UTF-8\"?>\n<plist version=\"1.0\"><dict><key>CFBundleExecutable</key><string>neo</string><key>CFBundlePackageType</key><string>APPL</string><key>CFBundleIdentifier</key><string>com.superneo.neo</string><key>CFBundleShortVersionString</key><string>0.0.1</string><key>LSMinimumSystemVersion</key><string>26.1</string><key>NSHumanReadableCopyright</key><string>c</string></dict></plist>";

const APP: &str = "/neo/dist/NEO.app";
const EXECUTABLE: &str = "/neo/dist/NEO.app/Contents/MacOS/neo";
const HELPER: &str = "/neo/dist/NEO.app/Contents/Helpers/h";
const ARCHIVE: &str = "/neo/dist/NEO.zip";
const LISTING: &str = "security find-identity -v -p codesigning";
const MESSAGE: &str = "{\"reason\":\"compiler-artifact\",\"target\":{\"name\":\"neo\",\"kind\":[\"bin\"]},\"profile\":{\"opt_level\":\"3\",\"debug_assertions\":false,\"overflow_checks\":false,\"debuginfo\":0},\"executable\":\"/neo/target/release/neo\"}";

fn refusal<T>(result: Result<T, Failure>) -> String {
    match result {
        Ok(_) => panic!("accepted"),
        Err(refusal) => refusal.message().to_string(),
    }
}

fn text(bytes: &[u8]) -> &str {
    std::str::from_utf8(bytes).unwrap()
}

fn output(success: bool, stdout: &str, stderr: &str) -> CommandOutput {
    CommandOutput {
        success,
        status: if success { "exit status: 0" } else { "exit status: 1" }.to_string(),
        stdout: stdout.as_bytes().to_vec(),
        stderr: stderr.as_bytes().to_vec(),
    }
}

fn again(output: &CommandOutput) -> CommandOutput {
    CommandOutput {
        success: output.success,
        status: output.status.clone(),
        stdout: output.stdout.clone(),
        stderr: output.stderr.clone(),
    }
}

fn macho() -> Vec<u8> {
    let mut bytes = Vec::new();
    for word in [0xfeed_facfu32, 0x0100_000c, 0, 2, 1, 24, 0, 0, 0x1b, 24] {
        bytes.extend_from_slice(&word.to_le_bytes());
    }
    bytes.extend_from_slice(&[7; 16]);
    bytes
}

fn details(identifier: &str, team: &str) -> String {
    format!("Executable={EXECUTABLE}\nIdentifier={identifier}\nCodeDirectory v=20500 flags=0x10000(runtime) hashes=1+1\nAuthority=Developer ID Application: Example ({team})\nTimestamp=Aug 21, 2026\nTeamIdentifier={team}\n")
}

fn answer(status: &str) -> String {
    format!("<?xml version=\"1.0\"?><plist version=\"1.0\"><dict><key>id</key><string>ID</string><key>status</key><string>{status}</string></dict></plist>")
}

/// A machine with a packaged and signed release on it.
struct Machine {
    files: BTreeMap<String, Vec<u8>>,
    links: BTreeMap<String, Vec<u8>>,
    variables: BTreeMap<&'static str, Vec<u8>>,
    /// What commands give, by their text, in place of what they give on a good machine.
    said: Vec<(String, CommandOutput)>,
    asked: Vec<String>,
    reports: Vec<String>,
}

impl Machine {
    fn good() -> Self {
        let mut files = BTreeMap::new();
        let notices = b"- [crate 1.0.0](url)\n".to_vec();
        for (path, contents) in [
            ("/neo/Cargo.toml".to_string(), MANIFEST.as_bytes().to_vec()),
            ("/neo/rust-toolchain.toml".to_string(), b"toolchain.channel = \"1.90\"".to_vec()),
            ("/neo/LICENSE".to_string(), b"license".to_vec()),
            ("/neo/packaging/NEO.entitlements".to_string(), Vec::new()),
            ("/neo/target/release/neo".to_string(), macho()),
            (ARCHIVE.to_string(), b"old".to_vec()),
            (format!("/neo/{NOTICES}"), notices.clone()),
            (format!("{APP}/Contents/Info.plist"), INFO.as_bytes().to_vec()),
            (format!("{APP}/{BUNDLED_LICENSE}"), b"license".to_vec()),
            (format!("{APP}/{BUNDLED_NOTICES}"), notices),
            (EXECUTABLE.to_string(), macho()),
            (HELPER.to_string(), b"helper".to_vec()),
        ] {
            files.insert(path, contents);
        }
        Machine {
            files,
            links: BTreeMap::new(),
            variables: [
                ("HOME", b"/Users/example".to_vec()),
                ("NEO_SIGNING_TEAM_IDENTIFIER", b"TEAMID1234".to_vec()),
            ]
            .into(),
            said: Vec::new(),
            asked: Vec::new(),
            reports: Vec::new(),
        }
    }

    fn saying(mut self, command: &str, success: bool, stdout: &str, stderr: &str) -> Self {
        self.said
            .push((command.to_string(), output(success, stdout, stderr)));
        self
    }

    fn without(mut self, path: &str) -> Self {
        self.files.retain(|file, _| !file.starts_with(path));
        self
    }

    fn environment(&self) -> Environment {
        Environment {
            variables: self
                .variables
                .iter()
                .map(|(name, value)| (name.as_bytes().to_vec(), value.clone()))
                .collect(),
        }
    }

    fn read(&self, path: &str) -> Result<Vec<u8>, String> {
        self.files.get(path).cloned().ok_or("no such file".to_string())
    }

    fn inspect(&self, path: &str) -> Result<FileFacts, String> {
        self.read(path).map(|contents| FileFacts {
            is_file: true,
            length: contents.len() as u64,
            mode: 0o755,
        })
    }

    fn settings(&self) -> SettingsFacts {
        SettingsFacts {
            manifest: self.read("/neo/Cargo.toml").map(|file| text(&file).to_string()),
            environment: self.environment(),
            process: "7".to_string(),
            parent: Ok(output(true, "5\n", "")),
            parent_environment: Ok(output(true, "cargo xtask", "")),
            version: Ok(output(true, "host: aarch64-apple-darwin\nrelease: 1.90.1\n", "")),
            cfg: Ok(output(true, "unix\n", "")),
            root: Ok(b"/neo".to_vec()),
            visits: self.visits(),
        }
    }

    fn visits(&self) -> Vec<Visit> {
        let mut visits = Vec::new();
        let mut walk = ConfigurationWalk::start(b"/neo", b"/Users/example/.cargo");
        while let Some(path) = walk.next() {
            let file = self.files.get(text(path));
            let visit = Visit {
                contents: Ok(file.map(|file| text(file).to_string())),
                canonical: Ok(path.to_vec()),
            };
            walk = walk.advance(&visit.contents, &visit.canonical).unwrap();
            visits.push(visit);
        }
        visits
    }

    fn bundle(&self) -> BundleFacts {
        BundleFacts {
            manifest: self.read("/neo/Cargo.toml").map(|file| text(&file).to_string()),
            info: self.read(&format!("{APP}/Contents/Info.plist")),
            legal: LegalFacts {
                license: self.read("/neo/LICENSE"),
                bundled_license: self.read(&format!("{APP}/{BUNDLED_LICENSE}")),
                notices: self.inspect(&format!("/neo/{NOTICES}")),
                notices_bytes: self.read(&format!("/neo/{NOTICES}")),
                bundled_notices: self.inspect(&format!("{APP}/{BUNDLED_NOTICES}")),
                bundled_notices_bytes: self.read(&format!("{APP}/{BUNDLED_NOTICES}")),
            },
        }
    }

    fn entries(&self, directory: &str) -> Vec<Entry> {
        let prefix = format!("{directory}/");
        let mut names: Vec<&str> = self
            .files
            .keys()
            .filter_map(|path| path.strip_prefix(&prefix))
            .map(|rest| rest.split('/').next().unwrap())
            .collect();
        names.dedup();
        names
            .into_iter()
            .map(|name| {
                let path = format!("{prefix}{name}");
                if self.files.contains_key(&path) {
                    Entry::File {
                        path: path.into_bytes(),
                        mode: Ok(0o755),
                    }
                } else {
                    Entry::Directory {
                        entries: Ok(self.entries(&path)),
                        path: path.into_bytes(),
                    }
                }
            })
            .collect()
    }

    fn run(&self, shown: &str) -> CommandOutput {
        for (command, output) in &self.said {
            if shown == command {
                return again(output);
            }
        }
        let metal = format!("{EXPECTED_METAL_TOOL_PREFIX}s18CDK{EXPECTED_METAL_TOOL_SUFFIX}");
        match shown {
            "cargo packager --version" => output(true, "cargo-packager 0.11.8\n", ""),
            "cargo about --version" => output(true, "cargo-about 0.8.2\n", ""),
            LISTING => output(
                true,
                "  1) AB \"Developer ID Application: Example (TEAMID1234)\"\n",
                "",
            ),
            "codesign -dvvv /neo/dist/NEO.app" => {
                output(true, "", &details("com.superneo.neo", "TEAMID1234"))
            }
            _ if shown.starts_with("codesign -dvvv ") => {
                output(true, "", &details("helper", "TEAMID1234"))
            }
            _ if shown.ends_with("json-render-diagnostics") => output(true, MESSAGE, ""),
            _ if shown.starts_with("strings ") => {
                output(true, &format!("/source/src/main.rs\n{metal}\n"), "")
            }
            _ if shown.starts_with("otool ") => {
                output(true, "cmd LC_BUILD_VERSION\nminos 26.1\n", "")
            }
            _ if shown.starts_with("zipinfo ") => output(true, "NEO.app/\n", ""),
            _ if shown.contains(" notarytool submit ") => output(true, &answer("Accepted"), ""),
            _ if shown.contains(" notarytool log ") => output(true, "{\"issues\":null}", ""),
            _ => output(true, "", ""),
        }
    }

    fn perform(&mut self, action: Action) -> Option<Event> {
        Some(match action {
            Action::ReadVariable(name) => Event::Variable(self.variables.get(name).cloned()),
            Action::Enter(directory) => {
                assert_eq!(directory, b"/neo");
                Event::Done(Ok(()))
            }
            Action::FindDirectory(path) => {
                let prefix = format!("{}/", text(&path));
                Event::Answer(self.files.keys().any(|file| file.starts_with(&prefix)))
            }
            Action::FindFile(path) | Action::FindAny(path) => {
                Event::Answer(self.files.contains_key(text(&path)))
            }
            Action::Read(path) | Action::ReadPropertyList(path) => {
                Event::Contents(self.read(text(&path)))
            }
            Action::ReadText(path) => {
                Event::Text(self.read(text(&path)).map(|file| text(&file).to_string()))
            }
            Action::ReadIfThere(path) => Event::Found(Ok(self.files.get(text(&path)).cloned())),
            Action::Write(path, contents) | Action::WritePropertyList(path, contents) => {
                self.files.insert(text(&path).to_string(), contents);
                Event::Done(Ok(()))
            }
            Action::MakeDirectory(_) | Action::SetMode(_, 0o755) => Event::Done(Ok(())),
            Action::Remove(path) => {
                self.links.remove(text(&path));
                self.files.remove(text(&path));
                Event::Done(Ok(()))
            }
            Action::LookAtAlias(path) => Event::Alias(match self.links.get(text(&path)) {
                Some(target) => AliasState::Link(Ok(target.clone())),
                None => AliasState::Missing,
            }),
            Action::Link(target, alias) => {
                self.links.insert(text(&alias).to_string(), target);
                Event::Done(Ok(()))
            }
            Action::Inspect(path) => Event::Done(self.inspect(text(&path)).map(|_| ())),
            Action::List(directory) => Event::Entries(Ok(self.entries(text(&directory)))),
            Action::Resolve(path) => Event::Resolved(Ok(path)),
            Action::Run(command, _) => {
                let shown = display_command(&command);
                let output = self.run(&shown);
                self.asked.push(shown);
                Event::Ran(Ok(output))
            }
            Action::RunIn(directory, command) => {
                assert_eq!(directory, b"/neo");
                let shown = display_command(&command);
                let output = self.run(&shown);
                self.asked.push(shown);
                Event::Ran(Ok(output))
            }
            Action::FindSettings(_) => Event::Settings(self.settings()),
            Action::FindBuild(_) => Event::Build(
                self.settings(),
                self.read("/neo/rust-toolchain.toml").map(|file| text(&file).to_string()),
            ),
            Action::FindBundle(_, _) => Event::Bundle(self.bundle()),
            Action::FindExecutables(bundled, release) => Event::Executables(ExecutableFacts {
                bundled: self.inspect(text(&bundled)),
                bundled_bytes: self.read(text(&bundled)),
                release: self.inspect(text(&release)),
                release_bytes: self.read(text(&release)),
            }),
            Action::FindMachine(root, cargo_home, target) => Event::Machine(MachineFacts {
                temporary_directory: b"/var/folders/ab/identifier0000gn/T/".to_vec(),
                hostname: Ok(output(true, "workstation.local\n", "")),
                root: Ok(root),
                cargo_home: Ok(cargo_home),
                target: Ok(target),
            }),
            Action::Finish => return None,
            other => panic!("{other:?}"),
        })
    }

    fn package(&mut self, profile: PackageProfile) -> Result<PackageRun, Failure> {
        let mut run = PackageRun::start(b"/neo", profile);
        while let Some(event) = self.perform(run.action()) {
            run = run.advance(&event)?;
            self.reports.extend(run.reports().iter().cloned());
        }
        run.result()?;
        Ok(run)
    }

    fn sign(&mut self) -> Result<SignRun, Failure> {
        let mut run = SignRun::start(b"/neo", &self.environment());
        while let Some(event) = self.perform(run.action()) {
            run = run.advance(&event)?;
            self.reports.extend(run.reports().iter().cloned());
            self.reports.extend(run.announcement());
        }
        run.result()?;
        Ok(run)
    }

    fn notarize(&mut self) -> Result<NotarizeRun, Failure> {
        let mut run = NotarizeRun::start(b"/neo", &self.environment());
        while let Some(event) = self.perform(run.action()) {
            run = run.advance(&event)?;
            self.reports.extend(run.reports().iter().cloned());
        }
        Ok(run)
    }

    fn asked_for(&self, start: &str) -> bool {
        self.asked.iter().any(|shown| shown.starts_with(start))
    }
}

#[test]
fn packages_a_release() {
    let mut machine = Machine::good();
    let run = machine.package(PackageProfile::Release).unwrap();
    assert_eq!(run.stage(), PackageStage::Finished);
    assert_eq!(
        machine.reports[0],
        "verified Rust toolchain: release=1.90.1, channel=1.90"
    );
    assert!(machine.reports.iter().any(|report| {
        report.starts_with("recorded built release artifact SHA-256 ")
            && report.ends_with(": /neo/target/release/neo")
    }));
    assert_eq!(
        machine.reports.last().unwrap(),
        "verified /neo/dist/NEO.app with 1 crate attributions"
    );
    assert_eq!(machine.links["/neo/.neo-release/cargo"], b"/Users/example/.cargo");
    assert_eq!(machine.links["/neo/.neo-release/target"], b"/neo/target");
    assert_eq!(
        machine.files["/neo/.neo-release/bin/xcrun"],
        WRAPPER.as_bytes()
    );
    assert!(machine.asked.iter().any(|shown| {
        shown.starts_with("cargo --config build.rustflags=[")
            && shown.ends_with(
                " build --locked --package neo --release --message-format=json-render-diagnostics",
            )
    }));
    assert!(machine.asked_for("nm -pa /neo/dist/NEO.app/Contents/MacOS/neo"));
}

#[test]
fn packages_a_debug_build() {
    let mut machine = Machine::good().without("/neo/target");
    let run = machine.package(PackageProfile::Debug).unwrap();
    assert_eq!(run.stage(), PackageStage::Finished);
    assert_eq!(
        machine.reports,
        ["verified /neo/dist/NEO.app with 1 crate attributions"]
    );
    assert!(machine.asked_for("cargo build --locked --package neo"));
    assert!(machine.asked_for("cargo packager --packages neo"));
    assert!(!machine.asked_for("nm "));
    assert!(machine.links.is_empty());
}

#[test]
fn takes_the_obsolete_key_out_of_the_property_list() {
    let mut machine = Machine::good();
    let info = format!("{APP}/Contents/Info.plist");
    let with = INFO.replace("</dict>", "<key>LSRequiresCarbon</key><true/></dict>");
    machine.files.insert(info.clone(), with.into_bytes());
    machine.package(PackageProfile::Debug).unwrap();
    let written = String::from_utf8(machine.files[&info].clone()).unwrap();
    assert!(!written.contains("LSRequiresCarbon"));
    assert!(written.contains("CFBundlePackageType"));
}

#[test]
fn packaging_stops_at_a_refusal() {
    let check = |mut machine: Machine, profile| refusal(machine.package(profile));
    assert_eq!(
        check(
            Machine::good().saying("cargo build --locked --package neo", false, "", ""),
            PackageProfile::Debug
        ),
        "cargo build --locked --package neo exited with exit status: 1"
    );
    assert_eq!(
        check(
            Machine::good().saying("cargo about --version", true, "cargo-about 0.7.0\n", ""),
            PackageProfile::Debug
        ),
        refusal(neo::release_build::require_tool_version(
            "about",
            "cargo-about 0.8.2",
            &Ok(output(true, "cargo-about 0.7.0\n", ""))
        ))
    );
    assert_eq!(
        check(Machine::good().without(APP), PackageProfile::Debug),
        "cargo-packager did not create /neo/dist/NEO.app"
    );
    let mut machine = Machine::good();
    machine.variables.remove("HOME");
    assert_eq!(check(machine, PackageProfile::Release), "HOME is not set");
    let mut machine = Machine::good();
    machine.files.insert(
        "/neo/Cargo.toml".to_string(),
        format!("{MANIFEST}signing-identity = \"x\"\n").into_bytes(),
    );
    assert_eq!(
        check(machine, PackageProfile::Debug),
        "remove package.metadata.packager.macos.signing-identity from /neo/Cargo.toml"
    );
    let mut machine = Machine::good();
    machine.files.get_mut(EXECUTABLE).unwrap().push(0);
    assert!(check(machine, PackageProfile::Release).contains("SHA-256"));
}

#[test]
fn a_refusal_leaves_what_was_reported_before_it() {
    let toolchain = "verified Rust toolchain: release=1.90.1, channel=1.90";
    let mut machine = Machine::good();
    machine.files.insert(
        "/neo/.cargo/config.toml".to_string(),
        b"[build]\nrustflags = 7\n".to_vec(),
    );
    refusal(machine.package(PackageProfile::Release));
    assert_eq!(machine.reports, [toolchain]);
    assert!(machine.asked.is_empty());

    let mut machine = Machine::good();
    machine.package(PackageProfile::Release).unwrap();
    let build = machine
        .asked
        .iter()
        .find(|shown| shown.ends_with("json-render-diagnostics"))
        .unwrap()
        .clone();
    let messages = format!("{MESSAGE}\n{}", MESSAGE.replace("\"3\"", "\"0\""));
    let mut machine = Machine::good().saying(&build, true, &messages, "");
    assert!(refusal(machine.package(PackageProfile::Release)).contains("opt_level=\"0\""));
    assert_eq!(
        machine.reports,
        [
            toolchain,
            "verified release compiler artifact profile: opt_level=\"3\", debug_assertions=false, overflow_checks=false, debuginfo=0; executable=/neo/target/release/neo",
        ]
    );
    assert_eq!(machine.asked.last().unwrap(), &build);
}

#[test]
fn a_refused_run_stays_refused() {
    let machine = Machine::good();
    let mut facts = machine.settings();
    facts.cfg = Ok(output(false, "", ""));
    let toolchain = Ok("toolchain.channel = \"1.90\"".to_string());
    let run = PackageRun::start(b"/neo", PackageProfile::Release)
        .advance(&Event::Done(Ok(())))
        .unwrap()
        .advance(&Event::Build(facts, toolchain))
        .unwrap();
    assert_eq!(run.stage(), PackageStage::Refused);
    let run = run.advance(&Event::Build(machine.settings(), Ok(String::new()))).unwrap();
    assert!(matches!(run.action(), Action::Finish));
    assert!(refusal(run.result()).contains("exit status: 1"));
    PackageRun::start(b"/neo", PackageProfile::Debug).result().unwrap();
}

#[test]
fn a_run_ignores_what_it_does_not_wait_for() {
    let run = PackageRun::start(b"/neo", PackageProfile::Debug);
    let run = run.advance(&Event::Answer(false)).unwrap();
    let run = run
        .advance(&Event::Ran(Ok(output(false, "", ""))))
        .unwrap();
    assert_eq!(run.stage(), PackageStage::Entering);
    let machine = Machine::good();
    let run = SignRun::start(b"/neo", &machine.environment());
    let run = run.advance(&Event::Bundle(machine.bundle())).unwrap();
    assert_eq!(run.stage(), SignStage::ReadingTeam);
}

#[test]
fn signs_nested_code_before_the_app() {
    let sign = |item: &str| {
        format!("codesign --force --sign Developer ID Application: Example (TEAMID1234) --options runtime --timestamp --entitlements /neo/packaging/NEO.entitlements {item}")
    };
    let mut machine = Machine::good().saying(&format!("spctl -a -vvv -t exec {APP}"), false, "", "");
    let run = machine.sign().unwrap();
    assert_eq!(run.stage(), SignStage::Finished);
    let signed: Vec<&String> = machine
        .asked
        .iter()
        .filter(|shown| shown.starts_with("codesign --force"))
        .collect();
    assert_eq!(signed, [&sign(HELPER), &sign(APP)]);
    for report in [
        "verified /neo/dist/NEO.app with 1 crate attributions",
        "selected signing identity: Developer ID Application: Example (TEAMID1234)",
        "found 1 nested code items",
        "signing /neo/dist/NEO.app/Contents/Helpers/h",
        "signing /neo/dist/NEO.app",
        "Gatekeeper assessment remains pending notarization: exit status: 1",
    ] {
        assert!(machine.reports.iter().any(|told| told == report), "{report}");
    }
    // Each signature is looked at once it is made, and once more when all are.
    for item in [HELPER, APP] {
        let looked = machine
            .asked
            .iter()
            .filter(|shown| **shown == format!("codesign -dvvv {item}"))
            .count();
        assert_eq!(looked, 2);
    }
    assert_eq!(
        machine.asked.iter().filter(|shown| shown.starts_with("nm ")).count(),
        2
    );
}

#[test]
fn signs_with_the_identity_of_the_override() {
    let mut machine = Machine::good();
    machine.variables.insert(
        "NEO_SIGNING_IDENTITY",
        b"Developer ID Application: Other (TEAMID1234)".to_vec(),
    );
    machine.sign().unwrap();
    assert!(!machine.asked_for("security "));
    assert!(machine.asked_for("codesign --force --sign Developer ID Application: Other (TEAMID1234) "));
}

#[test]
fn signing_fails_closed() {
    let mut machine = Machine::good();
    machine.variables.remove("NEO_SIGNING_TEAM_IDENTIFIER");
    assert!(refusal(machine.sign()).contains("is not set"));
    assert!(machine.asked.is_empty());
    let mut machine = Machine::good().saying(
        LISTING,
        true,
        "  1) AB \"Developer ID Application: Example (OTHERTEAM1)\"\n",
        "",
    );
    assert_eq!(
        refusal(machine.sign()),
        "signing identity team OTHERTEAM1 does not match NEO_SIGNING_TEAM_IDENTIFIER"
    );
    assert_eq!(
        machine.reports.last().unwrap(),
        "selected signing identity: Developer ID Application: Example (OTHERTEAM1)"
    );
    assert!(!machine.asked_for("codesign"));
    assert_eq!(
        refusal(Machine::good().without(APP).sign()),
        "missing app bundle: /neo/dist/NEO.app"
    );
    assert_eq!(
        refusal(Machine::good().without("/neo/packaging/NEO").sign()),
        "missing entitlements file: /neo/packaging/NEO.entitlements"
    );
    assert_eq!(
        refusal(
            Machine::good()
                .saying(
                    &format!("codesign -dvvv {APP}"),
                    true,
                    "",
                    &details("helper", "TEAMID1234")
                )
                .sign()
        ),
        "signature Identifier helper does not match CFBundleIdentifier com.superneo.neo"
    );
    let mut machine = Machine::good();
    machine.files.get_mut(EXECUTABLE).unwrap().push(0);
    refusal(machine.sign());
    assert!(!machine.asked_for("codesign"));
}

#[test]
fn notarizes_a_signed_app() {
    let mut machine = Machine::good();
    let run = machine.notarize().unwrap();
    assert_eq!(run.stage(), NotarizeStage::Finished);
    assert!(!machine.files.contains_key(ARCHIVE));
    let late: Vec<&str> = machine
        .asked
        .iter()
        .map(String::as_str)
        .filter(|shown| shown.starts_with("xcrun ") || shown.starts_with("spctl "))
        .collect();
    assert_eq!(
        late,
        [
            "xcrun notarytool submit /neo/dist/NEO.zip --keychain-profile SUPERNEO_NOTARY --wait --output-format plist",
            "xcrun notarytool log ID --keychain-profile SUPERNEO_NOTARY",
            "xcrun stapler staple /neo/dist/NEO.app",
            "xcrun stapler validate /neo/dist/NEO.app",
            "spctl -a -vvv -t exec /neo/dist/NEO.app",
        ]
    );
    assert!(machine
        .reports
        .iter()
        .any(|report| report == "notarization submission ID: Accepted"));
}

#[test]
fn notarizing_refuses_foreign_signatures_before_anything_is_archived() {
    for item in [HELPER, APP] {
        let identifier = if item == APP { "com.superneo.neo" } else { "helper" };
        let foreign = details(identifier, "OTHERTEAM1");
        let mut machine =
            Machine::good().saying(&format!("codesign -dvvv {item}"), true, "", &foreign);
        refusal(machine.notarize());
        assert!(!machine.asked_for("ditto "));
        assert!(!machine.asked_for("xcrun "));
        assert!(machine.files.contains_key(ARCHIVE));
        let mut machine =
            Machine::good().saying(&format!("codesign -dvvv {item}"), true, "", &foreign);
        refusal(machine.sign());
        assert!(!machine.asked_for("spctl "));
    }
}

#[test]
fn notarizing_stops_at_a_refusal() {
    let mut machine = Machine::good();
    machine.variables.remove("NEO_SIGNING_TEAM_IDENTIFIER");
    assert!(refusal(machine.notarize()).contains("is not set"));
    let submit = "xcrun notarytool submit /neo/dist/NEO.zip --keychain-profile SUPERNEO_NOTARY --wait --output-format plist";
    let log = "xcrun notarytool log ID --keychain-profile SUPERNEO_NOTARY";
    let mut machine = Machine::good().saying(submit, true, &answer("Invalid"), "");
    assert_eq!(
        refusal(machine.notarize()),
        "notarization submission ID finished with Invalid"
    );
    assert!(!machine.asked_for("xcrun stapler"));
    assert_eq!(
        refusal(
            Machine::good()
                .saying(submit, false, &answer("Accepted"), "")
                .notarize()
        ),
        "notarization submission ID finished with Accepted"
    );
    assert_eq!(
        refusal(
            Machine::good()
                .saying(log, true, "{\"issues\":[1]}", "")
                .notarize()
        ),
        "notary log contains issues: [1]"
    );
    assert_eq!(
        refusal(
            Machine::good()
                .saying(&format!("spctl -a -vvv -t exec {APP}"), false, "", "")
                .notarize()
        ),
        "Gatekeeper assessment exited with exit status: 1"
    );
}

#[test]
fn shows_what_the_notary_service_answers() {
    let mut machine = Machine::good();
    let mut run = NotarizeRun::start(b"/neo", &machine.environment());
    let mut manners = Vec::new();
    loop {
        let action = run.action();
        if let Action::Run(command, manner) = &action {
            if command.program == "xcrun" {
                manners.push(*manner);
            }
        }
        match machine.perform(action) {
            Some(event) => run = run.advance(&event).unwrap(),
            None => break,
        }
    }
    assert_eq!(
        manners,
        [
            Manner::Printed,
            Manner::PrintedOnSuccess,
            Manner::Aloud,
            Manner::Aloud
        ]
    );
}

fn local(machine: &mut Machine) -> Result<LocalRun, Failure> {
    let mut run = LocalRun::start(b"/neo", vec![b"check".to_vec()]);
    while let Some(event) = machine.perform(run.action()) {
        run = run.advance(&event)?;
    }
    Ok(run)
}

#[test]
fn restores_the_lock_file_whatever_cargo_does() {
    let start = || {
        LocalRun::start(b"/neo", vec![b"check".to_vec()])
            .advance(&Event::Variable(None))
            .unwrap()
    };
    let ran = |success| Event::Ran(Ok(output(success, "", "")));
    for success in [true, false] {
        let run = start();
        assert!(matches!(run.action(), Action::Read(path) if path == b"/neo/Cargo.lock"));
        let run = run.advance(&Event::Contents(Ok(b"locked".to_vec()))).unwrap();
        assert!(matches!(run.action(), Action::RunIn(directory, _) if directory == b"/neo"));
        let run = run.advance(&ran(success)).unwrap();
        assert!(
            matches!(run.action(), Action::Write(path, contents) if path == b"/neo/Cargo.lock" && contents == b"locked")
        );
        let done = run.advance(&Event::Done(Ok(())));
        if success {
            assert_eq!(done.unwrap().stage(), LocalStage::Finished);
        } else {
            assert!(refusal(done).ends_with(" check exited with exit status: 1"));
        }
    }
    assert_eq!(
        refusal(start().advance(&Event::Contents(Err("gone".to_string())))),
        "cannot read /neo/Cargo.lock: gone"
    );
    let run = start().advance(&Event::Contents(Ok(Vec::new()))).unwrap();
    let run = run.advance(&ran(false)).unwrap();
    assert_eq!(
        refusal(run.advance(&Event::Done(Err("full".to_string())))),
        "cannot restore /neo/Cargo.lock: full"
    );
}

#[test]
fn runs_cargo_on_the_checkout_of_the_variable() {
    let mut machine = Machine::good();
    machine
        .files
        .insert("/neo/Cargo.lock".to_string(), b"locked".to_vec());
    local(&mut machine).unwrap();
    assert!(machine.asked[0].contains("\"../libneo/crates/libneo\""));
    machine
        .variables
        .insert("NEO_LOCAL_LIBNEO_PATH", b"/else".to_vec());
    local(&mut machine).unwrap();
    assert!(machine.asked[1].contains("\"/else/crates/libneo\""));
    machine
        .variables
        .insert("NEO_LOCAL_LIBNEO_PATH", b"\xff".to_vec());
    assert_eq!(
        refusal(local(&mut machine)),
        "NEO_LOCAL_LIBNEO_PATH must contain valid Unicode"
    );
    assert_eq!(machine.asked.len(), 2);
    assert_eq!(machine.files["/neo/Cargo.lock"], b"locked");
}
