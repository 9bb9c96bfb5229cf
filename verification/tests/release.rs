//! Bundles, executables and Cargo configurations, held in a small file system of their own.

use neo::artifact::{EXPECTED_METAL_TOOL_PREFIX, EXPECTED_METAL_TOOL_SUFFIX};
use neo::bundle::{
    remove_carbon_key, ExecutableFacts, ExecutableMatch, FileFacts, LegalFacts, BUNDLED_LICENSE,
    BUNDLED_NOTICES, NOTICES,
};
use neo::command::{display_command, CommandOutput};
use neo::configuration::{scan_release_configuration, ReleaseConfiguration};
use neo::environment::Environment;
use neo::failure::Failure;
use neo::hygiene::{attribute_names, reject_file_markers, regular_files, MachineFacts};
use neo::manifest::{manifest_metadata, reject_packager_signing_identity, TargetContext};
use neo::nested::Entry;
use neo::pipeline::{Action, Event, Manner};
use neo::release::{
    check_settings, verify_bundle, verify_bundled_executable, BundleFacts, BundleReport, ExpectedExecutable,
    SettingsFacts,
};
use neo::verification::{ReleaseCheck, VerifyStage};
use neo::walk::{find_files, ConfigurationWalk, Visit};
use plist::{Dictionary, Value};
use std::collections::BTreeMap;

const TEST_UUID: [u8; 16] = [
    0x92, 0x66, 0x81, 0x5d, 0xd7, 0x91, 0x30, 0x64, 0xb8, 0x09, 0x13, 0xb1, 0x4e, 0xec, 0xdc, 0x2e,
];

const ROOT: &str = "/work/neo";
const APP: &str = "/work/neo/dist/NEO.app";
const MISSING: &str = "No such file or directory (os error 2)";

fn refusal<T>(result: Result<T, Failure>) -> String {
    match result {
        Ok(_) => panic!("accepted"),
        Err(refusal) => refusal.message().to_string(),
    }
}

fn wrote(stdout: &[u8]) -> Result<CommandOutput, String> {
    Ok(CommandOutput {
        success: true,
        status: "exit status: 0".to_string(),
        stdout: stdout.to_vec(),
        stderr: Vec::new(),
    })
}

fn test_macho(cpu_type: u32, uuid: [u8; 16]) -> Vec<u8> {
    let mut bytes = Vec::new();
    bytes.extend_from_slice(&0xfeed_facfu32.to_le_bytes());
    bytes.extend_from_slice(&cpu_type.to_le_bytes());
    bytes.extend_from_slice(&0u32.to_le_bytes());
    bytes.extend_from_slice(&2u32.to_le_bytes());
    bytes.extend_from_slice(&1u32.to_le_bytes());
    bytes.extend_from_slice(&24u32.to_le_bytes());
    bytes.extend_from_slice(&0u32.to_le_bytes());
    bytes.extend_from_slice(&0u32.to_le_bytes());
    bytes.extend_from_slice(&0x1bu32.to_le_bytes());
    bytes.extend_from_slice(&24u32.to_le_bytes());
    bytes.extend_from_slice(&uuid);
    bytes
}

fn test_byte_swapped_macho(cpu_type: u32, uuid: [u8; 16]) -> Vec<u8> {
    let mut bytes = Vec::new();
    bytes.extend_from_slice(&0xfeed_facfu32.to_be_bytes());
    bytes.extend_from_slice(&cpu_type.to_be_bytes());
    bytes.extend_from_slice(&0u32.to_be_bytes());
    bytes.extend_from_slice(&2u32.to_be_bytes());
    bytes.extend_from_slice(&1u32.to_be_bytes());
    bytes.extend_from_slice(&24u32.to_be_bytes());
    bytes.extend_from_slice(&0u32.to_be_bytes());
    bytes.extend_from_slice(&0u32.to_be_bytes());
    bytes.extend_from_slice(&0x1bu32.to_be_bytes());
    bytes.extend_from_slice(&24u32.to_be_bytes());
    bytes.extend_from_slice(&uuid);
    bytes
}

fn test_macho_with_segment(file_size: u64) -> Vec<u8> {
    let mut bytes = Vec::new();
    bytes.extend_from_slice(&0xfeed_facfu32.to_le_bytes());
    bytes.extend_from_slice(&0x0100_000cu32.to_le_bytes());
    bytes.extend_from_slice(&0u32.to_le_bytes());
    bytes.extend_from_slice(&2u32.to_le_bytes());
    bytes.extend_from_slice(&2u32.to_le_bytes());
    bytes.extend_from_slice(&96u32.to_le_bytes());
    bytes.extend_from_slice(&0u32.to_le_bytes());
    bytes.extend_from_slice(&0u32.to_le_bytes());
    bytes.extend_from_slice(&0x19u32.to_le_bytes());
    bytes.extend_from_slice(&72u32.to_le_bytes());
    bytes.extend_from_slice(&[0; 16]);
    bytes.extend_from_slice(&0u64.to_le_bytes());
    bytes.extend_from_slice(&0u64.to_le_bytes());
    bytes.extend_from_slice(&0u64.to_le_bytes());
    bytes.extend_from_slice(&file_size.to_le_bytes());
    bytes.extend_from_slice(&0u32.to_le_bytes());
    bytes.extend_from_slice(&0u32.to_le_bytes());
    bytes.extend_from_slice(&0u32.to_le_bytes());
    bytes.extend_from_slice(&0u32.to_le_bytes());
    bytes.extend_from_slice(&0x1bu32.to_le_bytes());
    bytes.extend_from_slice(&24u32.to_le_bytes());
    bytes.extend_from_slice(&TEST_UUID);
    bytes.resize(file_size as usize, 0);
    bytes
}

fn xml(dictionary: Dictionary) -> Vec<u8> {
    let mut bytes = Vec::new();
    Value::Dictionary(dictionary).to_writer_xml(&mut bytes).unwrap();
    bytes
}

fn dictionary_in(bytes: &[u8]) -> Dictionary {
    Value::from_reader(std::io::Cursor::new(bytes))
        .unwrap()
        .into_dictionary()
        .unwrap()
}

fn test_target() -> TargetContext {
    TargetContext::new(
        "aarch64-apple-darwin".to_string(),
        ["target_arch=\"aarch64\"", "target_os=\"macos\"", "unix"]
            .map(String::from)
            .into(),
    )
    .unwrap()
}

struct Fixture {
    files: BTreeMap<String, Vec<u8>>,
    mode: u32,
    environment: Vec<(Vec<u8>, Vec<u8>)>,
}

impl Fixture {
    fn valid() -> Self {
        let mut fixture = Fixture {
            files: BTreeMap::new(),
            mode: 0o755,
            environment: vec![(b"HOME".to_vec(), b"/Users/example".to_vec())],
        };
        fixture.write(
            &fixture.root("Cargo.toml"),
            "[package]\nversion = \"0.0.1\"\n[package.metadata.packager]\ncopyright = \"Copyright © 2026 ACTUAL LTD.\"\nidentifier = \"com.superneo.neo\"\n[package.metadata.packager.macos]\nminimum-system-version = \"26.1\"\n".as_bytes(),
        );
        fixture.write(&fixture.root("LICENSE"), b"license\n");
        fixture.write(&fixture.app(BUNDLED_LICENSE), b"license\n");
        fixture.write(
            &fixture.root(NOTICES),
            b"# Notices\n\n- [crate 1.0.0](url)\n",
        );
        fixture.write(
            &fixture.app(BUNDLED_NOTICES),
            b"# Notices\n\n- [crate 1.0.0](url)\n",
        );
        let release = test_macho(0x0100_000c, TEST_UUID);
        fixture.write(&fixture.executable(), &release);
        fixture.write(&fixture.release_executable(), &release);
        let mut dictionary = Dictionary::new();
        dictionary.insert("CFBundleExecutable".into(), "neo".into());
        dictionary.insert("CFBundlePackageType".into(), "APPL".into());
        dictionary.insert("CFBundleIdentifier".into(), "com.superneo.neo".into());
        dictionary.insert("CFBundleShortVersionString".into(), "0.0.1".into());
        dictionary.insert("LSMinimumSystemVersion".into(), "26.1".into());
        dictionary.insert(
            "NSHumanReadableCopyright".into(),
            "Copyright © 2026 ACTUAL LTD.".into(),
        );
        fixture.write(&fixture.info(), &xml(dictionary));
        fixture
    }

    fn root(&self, path: &str) -> String {
        format!("{ROOT}/{path}")
    }

    fn app(&self, path: &str) -> String {
        format!("{APP}/{path}")
    }

    fn info(&self) -> String {
        self.app("Contents/Info.plist")
    }

    fn executable(&self) -> String {
        self.app("Contents/MacOS/neo")
    }

    fn release_executable(&self) -> String {
        self.root("target/release/neo")
    }

    fn write(&mut self, path: &str, bytes: &[u8]) {
        self.files.insert(path.to_string(), bytes.to_vec());
    }

    fn remove(&mut self, path: &str) {
        self.files.remove(path).unwrap();
    }

    fn read(&self, path: &str) -> Result<Vec<u8>, String> {
        self.files.get(path).cloned().ok_or(MISSING.to_string())
    }

    fn text(&self, path: &str) -> Result<String, String> {
        self.read(path).map(|bytes| String::from_utf8(bytes).unwrap())
    }

    fn inspect(&self, path: &str) -> Result<FileFacts, String> {
        self.read(path).map(|bytes| FileFacts {
            is_file: true,
            length: bytes.len() as u64,
            mode: if path == self.executable() {
                self.mode
            } else {
                0o644
            },
        })
    }

    fn environment(&self) -> Environment {
        Environment {
            variables: self.environment.clone(),
        }
    }

    fn walk(&self, cargo_home: &str) -> Result<Vec<neo::configuration::CargoConfiguration>, Failure> {
        let mut walk = ConfigurationWalk::start(ROOT.as_bytes(), cargo_home.as_bytes());
        while let Some(path) = walk.next() {
            let path = path.to_vec();
            let contents = Ok(self.text(std::str::from_utf8(&path).unwrap()).ok());
            walk = walk.advance(&contents, &Ok(path))?;
        }
        Ok(walk.finish())
    }

    fn visits(&self, cargo_home: &str) -> Vec<Visit> {
        let mut visits = Vec::new();
        let mut walk = ConfigurationWalk::start(ROOT.as_bytes(), cargo_home.as_bytes());
        while let Some(path) = walk.next() {
            let path = path.to_vec();
            let visit = Visit {
                contents: Ok(self.text(std::str::from_utf8(&path).unwrap()).ok()),
                canonical: Ok(path),
            };
            let advanced = walk.advance(&visit.contents, &visit.canonical);
            visits.push(visit);
            match advanced {
                Ok(advanced) => walk = advanced,
                Err(_) => break,
            }
        }
        visits
    }

    fn scan(&self, cargo_home: &str) -> Result<ReleaseConfiguration, Failure> {
        scan_release_configuration(&self.environment(), &self.walk(cargo_home), &test_target())
    }

    fn settings(&self) -> SettingsFacts {
        SettingsFacts {
            manifest: self.text(&self.root("Cargo.toml")),
            environment: self.environment(),
            process: "7".to_string(),
            parent: wrote(b"5\n"),
            parent_environment: wrote(b"cargo xtask"),
            version: wrote(b"host: aarch64-apple-darwin\n"),
            cfg: wrote(b"target_arch=\"aarch64\"\ntarget_os=\"macos\"\nunix\n"),
            root: Ok(ROOT.as_bytes().to_vec()),
            visits: self.visits("/Users/example/.cargo"),
        }
    }

    fn executables(&self) -> ExecutableFacts {
        ExecutableFacts {
            bundled: self.inspect(&self.executable()),
            bundled_bytes: self.read(&self.executable()),
            release: self.inspect(&self.release_executable()),
            release_bytes: self.read(&self.release_executable()),
        }
    }

    fn bundle(&self) -> BundleFacts {
        BundleFacts {
            manifest: self.text(&self.root("Cargo.toml")),
            info: self.read(&self.info()),
            legal: LegalFacts {
                license: self.read(&self.root("LICENSE")),
                bundled_license: self.read(&self.app(BUNDLED_LICENSE)),
                notices: self.inspect(&self.root(NOTICES)),
                notices_bytes: self.read(&self.root(NOTICES)),
                bundled_notices: self.inspect(&self.app(BUNDLED_NOTICES)),
                bundled_notices_bytes: self.read(&self.app(BUNDLED_NOTICES)),
            },
        }
    }

    fn verify(&self) -> Result<BundleReport, Failure> {
        verify_bundle(
            ROOT.as_bytes(),
            APP.as_bytes(),
            &self.bundle(),
            Some(&ExpectedExecutable {
                path: self.release_executable().as_bytes(),
                settings: &self.settings(),
                executables: &self.executables(),
            }),
        )
    }

    fn verify_debug(&self) -> Result<BundleReport, Failure> {
        verify_bundle(ROOT.as_bytes(), APP.as_bytes(), &self.bundle(), None)
    }

    fn verify_stable_identity(&self) -> Result<String, Failure> {
        verify_bundled_executable(
            ROOT.as_bytes(),
            APP.as_bytes(),
            &dictionary_in(&self.read(&self.info()).unwrap()),
            &ExpectedExecutable {
                path: self.release_executable().as_bytes(),
                settings: &self.settings(),
                executables: &self.executables(),
            },
            ExecutableMatch::Stable,
        )
    }

    fn append_to_executable(&mut self, bytes: &[u8]) {
        let mut executable = self.read(&self.executable()).unwrap();
        executable.extend_from_slice(bytes);
        self.write(&self.executable(), &executable);
    }

    fn change_info(&mut self, key: &str, value: Value) {
        let mut dictionary = dictionary_in(&self.read(&self.info()).unwrap());
        dictionary.insert(key.into(), value);
        self.write(&self.info(), &xml(dictionary));
    }

    fn machine(&self) -> MachineFacts {
        MachineFacts {
            temporary_directory: b"/var/folders/ab/identifier0000gn/T/".to_vec(),
            hostname: wrote(b"workstation.local\n"),
            root: Ok(ROOT.as_bytes().to_vec()),
            cargo_home: Ok(b"/Users/example/.cargo".to_vec()),
            target: Ok(format!("{ROOT}/target").into_bytes()),
        }
    }

    fn listing(&self) -> Vec<Entry> {
        self.files
            .keys()
            .filter(|path| path.starts_with(APP))
            .map(|path| Entry::File {
                path: path.as_bytes().to_vec(),
                mode: Ok(0o644),
            })
            .collect()
    }
}

/// A release as it is verified: a fixture, the machine, the extended attribute of its last file, and
/// what commands say in place of what they say of a good release.
struct Release {
    fixture: Fixture,
    machine: Option<MachineFacts>,
    attribute: Option<String>,
    said: Vec<(&'static str, String)>,
    asked: Vec<String>,
}

impl Release {
    fn of(fixture: Fixture) -> Self {
        let machine = Some(fixture.machine());
        Release {
            fixture,
            machine,
            attribute: None,
            said: Vec::new(),
            asked: Vec::new(),
        }
    }

    fn run(&self, command: &str) -> Result<CommandOutput, String> {
        for (program, text) in &self.said {
            if command.starts_with(program) {
                return wrote(text.as_bytes());
            }
        }
        let metal = format!("{EXPECTED_METAL_TOOL_PREFIX}s18CDK{EXPECTED_METAL_TOOL_SUFFIX}");
        match command.split(' ').next().unwrap() {
            "strings" => wrote(format!("/source/src/main.rs\n{metal}\n").as_bytes()),
            "otool" => wrote(b"cmd LC_BUILD_VERSION\nminos 26.1\n"),
            "xattr" if command == "xattr /work/neo/dist/NEO.app/trace" => match self.attribute {
                Some(_) => wrote(b"com.apple.provenance\n"),
                None => wrote(b""),
            },
            "xattr" if command.starts_with("xattr -p com.apple.provenance ") => {
                wrote(self.attribute.as_ref().unwrap().as_bytes())
            }
            _ => wrote(b""),
        }
    }

    fn perform(&mut self, action: Action) -> Option<Event> {
        let fixture = &self.fixture;
        Some(match action {
            Action::FindBundle(root, app) => {
                assert_eq!((root.as_slice(), app.as_slice()), (ROOT.as_bytes(), APP.as_bytes()));
                Event::Bundle(fixture.bundle())
            }
            Action::FindSettings(_) => Event::Settings(fixture.settings()),
            Action::FindExecutables(bundled, release) => {
                assert_eq!(bundled, fixture.executable().into_bytes());
                assert_eq!(release, fixture.release_executable().into_bytes());
                Event::Executables(fixture.executables())
            }
            Action::ReadText(path) => {
                Event::Text(fixture.text(std::str::from_utf8(&path).unwrap()))
            }
            Action::Run(command, Manner::Quiet) => {
                let shown = display_command(&command);
                let output = self.run(&shown);
                self.asked.push(shown);
                Event::Ran(output)
            }
            Action::FindMachine(_, cargo_home, _) => {
                assert!(cargo_home.ends_with(b"/.cargo"));
                Event::Machine(self.machine.take().unwrap())
            }
            Action::List(_) => Event::Entries(Ok(fixture.listing())),
            Action::Read(path) => {
                Event::Contents(fixture.read(std::str::from_utf8(&path).unwrap()))
            }
            Action::Finish => return None,
            other => panic!("{other:?}"),
        })
    }

    /// The number of attributions, and all reports.
    fn verify(&mut self) -> Result<(u64, Vec<String>), Failure> {
        let mut check = ReleaseCheck::start(
            ROOT.as_bytes(),
            APP.as_bytes(),
            self.fixture.release_executable().as_bytes(),
            ExecutableMatch::Exact,
        );
        let mut reports = Vec::new();
        while let Some(event) = self.perform(check.action()) {
            check = check.advance(&event)?;
            reports.extend(check.reports());
        }
        assert_eq!(check.stage(), VerifyStage::Done);
        Ok((check.attributions(), reports))
    }
}

#[test]
fn accepts_in_tree_release_profile_tuning() {
    let mut fixture = Fixture::valid();
    let cargo_home = fixture.root("cargo-home");
    fixture.write(
        &fixture.root("Cargo.toml"),
        b"[profile.release]\nlto = \"thin\"\ncodegen-units = 1\nstrip = \"symbols\"\n",
    );
    fixture.scan(&cargo_home).unwrap();
}

#[test]
fn accepts_in_tree_release_profile_configuration() {
    let mut fixture = Fixture::valid();
    let cargo_home = fixture.root("cargo-home");
    fixture.write(
        &fixture.root(".cargo/config.toml"),
        b"[profile.release]\nlto = \"thin\"\n",
    );
    fixture.scan(&cargo_home).unwrap();
}

#[test]
fn rejects_out_of_tree_release_profile_configuration() {
    let mut fixture = Fixture::valid();
    let cargo_home = format!("{ROOT}.cargo-home-profile");
    fixture.write(
        &format!("{cargo_home}/config.toml"),
        b"[profile.release]\ndebug-assertions = true\n",
    );
    let error = refusal(fixture.scan(&cargo_home));
    assert!(error.contains("profile.release.debug-assertions"));
    assert!(error.contains("out-of-tree"));
}

#[test]
fn accepts_in_tree_rustflags_and_matches_target_source() {
    let mut fixture = Fixture::valid();
    let cargo_home = fixture.root("cargo-home");
    fixture.write(
        &fixture.root(".cargo/config.toml"),
        b"[build]\nrustflags = [\"--cfg\", \"from_config\"]\n[target.aarch64-apple-darwin]\nrustflags = [\"-C\", \"link-arg=-Wl,-oso_prefix,/source\"]\n",
    );
    let configuration = fixture.scan(&cargo_home).unwrap();
    assert!(configuration.has_matching_target_rustflags);
    assert_eq!(
        configuration.in_tree_build_rustflags,
        [b"--cfg".to_vec(), b"from_config".to_vec()]
    );
}

#[test]
fn accepts_nonmatching_target_rustflags() {
    let mut fixture = Fixture::valid();
    let cargo_home = fixture.root("cargo-home");
    fixture.write(
        &fixture.root(".cargo/config.toml"),
        b"[target.x86_64-unknown-linux-gnu]\nrustflags = [\"-C\", \"linker=clang\"]\n",
    );
    let configuration = fixture.scan(&cargo_home).unwrap();
    assert!(!configuration.has_matching_target_rustflags);
}

#[test]
fn rejects_out_of_tree_build_rustflags_through_include() {
    let mut fixture = Fixture::valid();
    let cargo_home = format!("{ROOT}.cargo-home-include");
    fixture.write(
        &format!("{cargo_home}/config.toml"),
        b"include = [\"other.toml\"]\n",
    );
    fixture.write(
        &format!("{cargo_home}/other.toml"),
        b"[build]\nrustflags = [\"-C\", \"opt-level=0\"]\n",
    );
    let error = refusal(fixture.scan(&cargo_home));
    assert!(error.contains("build.rustflags"));
    assert!(error.contains("other.toml"));
}

#[test]
fn rejects_profile_codegen_rustflags_in_tree() {
    let mut fixture = Fixture::valid();
    let cargo_home = fixture.root("cargo-home");
    fixture.write(
        &fixture.root(".cargo/config.toml"),
        b"[target.'cfg(all(unix, target_os = \"macos\"))']\nrustflags = [\"-C\", \"debuginfo=2\"]\n",
    );
    let error = refusal(fixture.scan(&cargo_home));
    assert!(error.contains("debuginfo"));
}

#[test]
fn rejects_out_of_tree_settings_by_name() {
    let cargo_home = "/Users/example/.cargo";
    let check = |contents: &str| {
        let mut fixture = Fixture::valid();
        fixture.write(&format!("{cargo_home}/config"), contents.as_bytes());
        refusal(fixture.scan(cargo_home))
    };
    for key in ["rustflags", "rustc", "rustc-wrapper", "rustc-workspace-wrapper"] {
        assert_eq!(
            check(&format!("[build]\n{key} = \"x\"\n")),
            format!("build.{key} in out-of-tree Cargo configuration /Users/example/.cargo/config is unsupported for release packaging")
        );
    }
    for name in ["SDKROOT", "DEVELOPER_DIR", "MACOSX_DEPLOYMENT_TARGET"] {
        assert_eq!(
            check(&format!("[env]\n{name} = \"x\"\n")),
            format!("env.{name} in out-of-tree Cargo configuration /Users/example/.cargo/config is unsupported for release packaging")
        );
    }
    assert_eq!(
        check("[target.'cfg(unix)']\nrustflags = \"-O\"\n"),
        "target.cfg(unix).rustflags in out-of-tree Cargo configuration /Users/example/.cargo/config is unsupported for release packaging"
    );
    let fault = "cfg(".parse::<cargo_platform::Platform>().unwrap_err();
    assert_eq!(
        check("[target.'cfg(']\nrustflags = \"-O\"\n"),
        format!("cannot evaluate target selector \"cfg(\" in /Users/example/.cargo/config: {fault}")
    );
    let fault = "[".parse::<toml::Value>().unwrap_err();
    assert_eq!(
        check("["),
        format!("cannot parse Cargo configuration /Users/example/.cargo/config: {fault}")
    );
    assert_eq!(
        check("include = 1\n"),
        "include in /Users/example/.cargo/config must be a path or an array of paths"
    );
    assert_eq!(
        check("include = [1]\n"),
        "include entries in /Users/example/.cargo/config must be paths"
    );
}

#[test]
fn rejects_malformed_in_tree_rustflags() {
    let check = |contents: &str| {
        let mut fixture = Fixture::valid();
        fixture.write(&fixture.root(".cargo/config.toml"), contents.as_bytes());
        refusal(fixture.scan("/Users/example/.cargo"))
    };
    assert_eq!(
        check("[build]\nrustflags = 1\n"),
        "build.rustflags in /work/neo/.cargo/config.toml must be a string or an array of strings"
    );
    assert_eq!(
        check("[build]\nrustflags = [1]\n"),
        "build.rustflags in /work/neo/.cargo/config.toml must contain only strings"
    );
    assert_eq!(
        check("[build]\nrustflags = \" -C\u{a0}lto \"\n"),
        "release rustflags cannot set lto; remove this profile-owned codegen option"
    );
}

#[test]
fn rejects_target_rustflags_of_the_environment() {
    let mut fixture = Fixture::valid();
    fixture.environment.push((
        b"CARGO_TARGET_AARCH64_APPLE_DARWIN_RUSTFLAGS".to_vec(),
        Vec::new(),
    ));
    assert_eq!(
        refusal(fixture.scan("/Users/example/.cargo")),
        "target-specific rustflags environment variable CARGO_TARGET_AARCH64_APPLE_DARWIN_RUSTFLAGS overrides release path remapping; pass those flags through RUSTFLAGS or CARGO_ENCODED_RUSTFLAGS"
    );
}

#[test]
fn reads_each_configuration_once() {
    let mut fixture = Fixture::valid();
    fixture.write(
        &fixture.root(".cargo/config.toml"),
        b"include = [\"more.toml\", \"/work/.cargo/config.toml\"]\n",
    );
    fixture.write(
        &fixture.root(".cargo/more.toml"),
        b"include = \"config.toml\"\n",
    );
    fixture.write("/work/.cargo/config.toml", b"");
    let paths: Vec<(String, bool)> = fixture
        .walk("/Users/example/.cargo")
        .unwrap()
        .into_iter()
        .map(|file| (String::from_utf8(file.path).unwrap(), file.in_tree))
        .collect();
    assert_eq!(
        paths,
        [
            ("/work/.cargo/config.toml".to_string(), false),
            ("/work/neo/.cargo/config.toml".to_string(), true),
            ("/work/neo/.cargo/more.toml".to_string(), true),
        ]
    );
}

#[test]
fn rejects_packager_signing_identity() {
    let mut fixture = Fixture::valid();
    fixture.write(
        &fixture.root("Cargo.toml"),
        b"[package.metadata.packager.macos]\nsigning-identity = \"Developer ID Application: Example Corporation\"\n",
    );
    assert!(reject_packager_signing_identity(
        ROOT.as_bytes(),
        &fixture.text(&fixture.root("Cargo.toml"))
    )
    .is_err());
}

#[test]
fn accepts_packager_metadata_without_signing_identity() {
    let mut fixture = Fixture::valid();
    fixture.write(
        &fixture.root("Cargo.toml"),
        b"[package.metadata.packager.macos]\nminimum-system-version = \"26.1\"\n",
    );
    assert!(reject_packager_signing_identity(
        ROOT.as_bytes(),
        &fixture.text(&fixture.root("Cargo.toml"))
    )
    .is_ok());
}

#[test]
fn names_missing_manifest_entries() {
    let fixture = Fixture::valid();
    let whole = fixture.text(&fixture.root("Cargo.toml")).unwrap();
    let metadata = manifest_metadata(ROOT.as_bytes(), &Ok(whole.clone())).unwrap();
    assert_eq!(metadata.version, "0.0.1");
    assert_eq!(metadata.copyright, "Copyright © 2026 ACTUAL LTD.");
    assert_eq!(metadata.identifier, "com.superneo.neo");
    assert_eq!(metadata.minimum_system_version, "26.1");
    assert_eq!(
        refusal(manifest_metadata(
            ROOT.as_bytes(),
            &Ok(whole.replace("minimum-system-version = \"26.1\"", ""))
        )),
        "/work/neo/Cargo.toml has no string package.metadata.packager.macos.minimum-system-version"
    );
    assert_eq!(
        refusal(manifest_metadata(
            ROOT.as_bytes(),
            &Ok(whole.replace("\"0.0.1\"", "1"))
        )),
        "/work/neo/Cargo.toml has no string package.version"
    );
    assert_eq!(
        refusal(manifest_metadata(ROOT.as_bytes(), &Ok("=".to_string()))),
        "=".parse::<toml::Value>().unwrap_err().to_string()
    );
    assert_eq!(
        refusal(manifest_metadata(
            ROOT.as_bytes(),
            &Err(MISSING.to_string())
        )),
        MISSING
    );
}

#[test]
fn accepts_valid_bundle() {
    let fixture = Fixture::valid();
    assert_eq!(fixture.verify().unwrap().attributions, 1);
}

#[test]
fn removes_carbon_key() {
    let mut fixture = Fixture::valid();
    fixture.change_info("LSRequiresCarbon", true.into());
    let path = fixture.info();
    let written = remove_carbon_key(path.as_bytes(), &fixture.read(&path)).unwrap();
    let dictionary = dictionary_in(&written);
    assert!(!dictionary.contains_key("LSRequiresCarbon"));
    assert_eq!(
        dictionary.get("CFBundleExecutable").unwrap().as_string(),
        Some("neo")
    );
    assert_eq!(dictionary.len(), 6);
    let mut list = Vec::new();
    Value::Array(Vec::new()).to_writer_xml(&mut list).unwrap();
    assert_eq!(
        refusal(remove_carbon_key(path.as_bytes(), &Ok(list))),
        "/work/neo/dist/NEO.app/Contents/Info.plist is not a plist dictionary"
    );
}

#[test]
fn rejects_empty_executable() {
    let mut fixture = Fixture::valid();
    fixture.write(&fixture.executable(), b"");
    let error = refusal(fixture.verify());
    assert!(error.contains("bundled executable is empty"));
}

#[test]
fn rejects_nonexecutable_file() {
    let mut fixture = Fixture::valid();
    fixture.mode = 0o644;
    let error = refusal(fixture.verify());
    assert!(error.contains("no executable permission bits"));
}

#[test]
fn rejects_non_mach_o_executable() {
    let mut fixture = Fixture::valid();
    fixture.write(&fixture.executable(), b"#!/bin/sh\nexit 0\n");
    let error = refusal(fixture.verify());
    assert!(error.contains("no supported Mach-O magic"));
}

#[test]
fn rejects_truncated_mach_o_executable() {
    let mut fixture = Fixture::valid();
    fixture.write(
        &fixture.executable(),
        &test_macho(0x0100_000c, TEST_UUID)[..40],
    );
    let error = refusal(fixture.verify());
    assert!(error.contains("truncated Mach-O load command area"));
}

#[test]
fn rejects_truncated_mach_o_segment_data() {
    let mut fixture = Fixture::valid();
    let executable = test_macho_with_segment(256);
    fixture.write(&fixture.executable(), &executable[..200]);
    let error = refusal(fixture.verify());
    assert!(error.contains("truncated Mach-O segment data"));
}

#[test]
fn rejects_byte_swapped_mach_o_executable() {
    let mut fixture = Fixture::valid();
    fixture.write(
        &fixture.executable(),
        &test_byte_swapped_macho(0x0100_000c, TEST_UUID),
    );
    let error = refusal(fixture.verify());
    assert!(error.contains("byte-swapped Mach-O is unsupported"));
}

#[test]
fn rejects_fat_mach_o_executable() {
    let mut fixture = Fixture::valid();
    fixture.write(
        &fixture.executable(),
        b"\xca\xfe\xba\xbe fat executable",
    );
    let error = refusal(fixture.verify());
    assert!(error.contains("fat Mach-O is unsupported"));
}

#[test]
fn rejects_executable_with_different_cpu_type() {
    let mut fixture = Fixture::valid();
    fixture.write(&fixture.executable(), &test_macho(0x0100_0007, TEST_UUID));
    let error = refusal(fixture.verify());
    assert!(error.contains("CPU type x86_64"));
    assert!(error.contains("CPU type arm64"));
}

#[test]
fn rejects_executable_with_different_cpu_subtype() {
    let mut fixture = Fixture::valid();
    let mut executable = test_macho(0x0100_000c, TEST_UUID);
    executable[8..12].copy_from_slice(&2u32.to_le_bytes());
    fixture.write(&fixture.executable(), &executable);
    let error = refusal(fixture.verify());
    assert!(error.contains("CPU subtype"));
}

#[test]
fn rejects_executable_with_different_uuid() {
    let mut fixture = Fixture::valid();
    fixture.write(&fixture.executable(), &test_macho(0x0100_000c, [0x55; 16]));
    let error = refusal(fixture.verify_stable_identity());
    assert!(error.contains("bundled executable LC_UUID"));
    assert!(error.contains("does not match release artifact LC_UUID"));
}

#[test]
fn rejects_missing_release_artifact() {
    let mut fixture = Fixture::valid();
    fixture.remove(&fixture.release_executable());
    let error = refusal(fixture.verify());
    assert!(error.contains("missing release artifact"));
    assert!(error.contains("run `cargo xtask package` first"));
}

#[test]
fn rejects_appended_executable_bytes_by_hash() {
    let mut fixture = Fixture::valid();
    fixture.append_to_executable(b"AAAAAAA");
    let error = refusal(fixture.verify());
    assert!(error.contains("SHA-256"));
}

#[test]
fn appended_bytes_keep_the_stable_identity() {
    let mut fixture = Fixture::valid();
    fixture.append_to_executable(b"AAAAAAA");
    let report = fixture.verify_stable_identity().unwrap();
    assert!(report.starts_with("matched executable identity: /work/neo/dist/NEO.app/Contents/MacOS/neo SHA-256 "));
    assert!(report.contains(" UUID 9266815D-D791-3064-B809-13B14EECDC2E (arm64 subtype 0x00000000); /work/neo/target/release/neo SHA-256 "));
}

#[test]
fn rejects_private_markers_in_bundle_files() {
    let home: &[u8] = b"/Users/example";
    let markers = [(home, "private home path")];
    let error = refusal(reject_file_markers(
        home,
        &markers,
        b"NEO.app/Contents/Info.plist",
        "contents",
    ));
    assert!(error.contains("private home path"));
}

#[test]
fn permits_debug_executable_during_packaging() {
    let mut fixture = Fixture::valid();
    fixture.write(
        &fixture.executable(),
        b"debug executable attempt to add with overflow",
    );
    assert_eq!(fixture.verify_debug().unwrap().attributions, 1);
}

#[test]
fn rejects_incorrect_required_plist_metadata() {
    for key in [
        "CFBundlePackageType",
        "CFBundleIdentifier",
        "CFBundleShortVersionString",
        "LSMinimumSystemVersion",
    ] {
        let mut fixture = Fixture::valid();
        fixture.change_info(key, "wrong".into());
        let error = refusal(fixture.verify());
        assert!(error.contains(key));
    }
}

#[test]
fn rejects_wrong_copyright() {
    let mut fixture = Fixture::valid();
    let mut dictionary = Dictionary::new();
    dictionary.insert("NSHumanReadableCopyright".into(), "wrong".into());
    fixture.write(&fixture.info(), &xml(dictionary));
    assert!(fixture.verify().is_err());
    let mut fixture = Fixture::valid();
    fixture.change_info("NSHumanReadableCopyright", "wrong".into());
    assert_eq!(
        refusal(fixture.verify()),
        "unexpected NSHumanReadableCopyright: expected \"Copyright © 2026 ACTUAL LTD.\", found \"wrong\""
    );
}

#[test]
fn rejects_carbon_key() {
    let mut fixture = Fixture::valid();
    fixture.change_info("LSRequiresCarbon", false.into());
    assert!(fixture.verify().is_err());
    assert_eq!(
        refusal(fixture.verify()),
        "obsolete LSRequiresCarbon remains in /work/neo/dist/NEO.app/Contents/Info.plist"
    );
}

#[test]
fn rejects_executable_names_with_directories() {
    for name in ["../neo", "a/neo", "neo/", "..", ""] {
        let mut fixture = Fixture::valid();
        fixture.change_info("CFBundleExecutable", name.into());
        assert_eq!(
            refusal(fixture.verify()),
            "bundle has no valid CFBundleExecutable"
        );
    }
}

#[test]
fn rejects_different_license() {
    let mut fixture = Fixture::valid();
    fixture.write(&fixture.app(BUNDLED_LICENSE), b"different\n");
    assert!(fixture.verify().is_err());
}

#[test]
fn rejects_missing_notices() {
    let mut fixture = Fixture::valid();
    fixture.remove(&fixture.app(BUNDLED_NOTICES));
    assert!(fixture.verify().is_err());
}

#[test]
fn rejects_empty_notices() {
    let mut fixture = Fixture::valid();
    fixture.write(&fixture.root(NOTICES), b"");
    assert!(fixture.verify().is_err());
}

#[test]
fn rejects_notices_without_attributions() {
    let mut fixture = Fixture::valid();
    fixture.write(&fixture.root(NOTICES), b"# Notices\n");
    fixture.write(&fixture.app(BUNDLED_NOTICES), b"# Notices\n");
    assert!(fixture.verify().is_err());
}

#[test]
fn rejects_different_notices() {
    let mut fixture = Fixture::valid();
    fixture.write(&fixture.app(BUNDLED_NOTICES), b"different\n");
    assert!(fixture.verify().is_err());
}

#[test]
fn rejects_escaped_entities() {
    for entity in ["&quot;", "&#x27;", "&amp;"] {
        let mut fixture = Fixture::valid();
        let notices = format!("# Notices\n\n- [crate 1.0.0](url)\n{entity}\n");
        fixture.write(&fixture.root(NOTICES), notices.as_bytes());
        fixture.write(&fixture.app(BUNDLED_NOTICES), notices.as_bytes());
        assert!(fixture.verify().is_err());
        assert_eq!(
            refusal(fixture.verify()),
            format!("bundled notices contain escaped entity {entity}: /work/neo/dist/NEO.app/{BUNDLED_NOTICES}")
        );
    }
}

#[test]
fn accepts_a_whole_release() {
    let mut release = Release::of(Fixture::valid());
    let (attributions, reports) = release.verify().unwrap();
    assert_eq!(attributions, 1);
    assert_eq!(reports.len(), 4);
    assert!(reports[0].starts_with("matched executable identity: "));
    assert_eq!(
        reports[3],
        "verified release hygiene across 4 regular bundle files and their extended attributes"
    );
    assert_eq!(release.asked[0], "nm -pa /work/neo/dist/NEO.app/Contents/MacOS/neo");
    assert_eq!(
        release.asked.iter().filter(|shown| shown.starts_with("xattr ")).count(),
        4
    );
}

#[test]
fn verification_asks_for_nothing_after_a_refusal() {
    let mut release = Release::of(Fixture::valid());
    release.said.push(("nm", "0 OSO a.o\n1 OSO b.o\n".to_string()));
    assert_eq!(
        refusal(release.verify()),
        "release artifact contains 2 OSO entries: /work/neo/dist/NEO.app/Contents/MacOS/neo"
    );
    assert_eq!(release.asked.len(), 1);
    let mut release = Release::of(Fixture::valid());
    release.said.push(("otool", "cmd LC_BUILD_VERSION\nminos 13.0\n".to_string()));
    assert_eq!(
        refusal(release.verify()),
        "LC_BUILD_VERSION minos 13.0 does not match LSMinimumSystemVersion 26.1"
    );
    assert_eq!(release.asked.len(), 3);
}

#[test]
fn rejects_releases_with_traces_of_the_machine() {
    for (marker, description) in [
        ("/Users/example", "private home path"),
        ("/work/neo", "repository root"),
        ("/private/var/folders", "Darwin temporary directory path"),
        ("identifier0000gn", "Darwin temporary directory identifier"),
        ("workstation.local", "build host name"),
    ] {
        let mut fixture = Fixture::valid();
        fixture.write("/work/neo/dist/NEO.app/trace", format!("a {marker}/b").as_bytes());
        assert_eq!(
            refusal(Release::of(fixture).verify()),
            format!("bundle file contents contain {description}: /work/neo/dist/NEO.app/trace")
        );
        let mut fixture = Fixture::valid();
        fixture.write("/work/neo/dist/NEO.app/trace", b"");
        let mut release = Release::of(fixture);
        release.attribute = Some(format!("a {marker}/b"));
        assert_eq!(
            refusal(release.verify()),
            format!("bundle file extended attributes contain {description}: /work/neo/dist/NEO.app/trace")
        );
    }
}

#[test]
fn rejects_machines_that_cannot_be_told() {
    let mut release = Release::of(Fixture::valid());
    release.machine.as_mut().unwrap().temporary_directory = b"/tmp".to_vec();
    assert_eq!(
        refusal(release.verify()),
        "TMPDIR is outside /var/folders; cannot verify its per-user identifier: /tmp"
    );
    let mut release = Release::of(Fixture::valid());
    release.machine.as_mut().unwrap().hostname = wrote(b" \n");
    assert_eq!(refusal(release.verify()), "hostname is empty");
    let mut fixture = Fixture::valid();
    fixture.environment[0].1 = b"/".to_vec();
    assert_eq!(
        refusal(Release::of(fixture).verify()),
        "HOME is not a private path prefix"
    );
    let mut fixture = Fixture::valid();
    fixture.environment.clear();
    assert_eq!(refusal(Release::of(fixture).verify()), "HOME is not set");
}

#[test]
fn every_configuration_file_must_be_looked_at() {
    let mut fixture = Fixture::valid();
    fixture.write(
        "/work/neo/.cargo/config.toml",
        b"include = \"more.toml\"\n",
    );
    fixture.write("/work/neo/.cargo/more.toml", b"[profile.release]\nlto = false\n");
    let root = Ok(ROOT.as_bytes().to_vec());
    let home = b"/Users/example/.cargo";
    let mut visits = fixture.visits("/Users/example/.cargo");
    let files = find_files(&root, home, &visits).unwrap();
    assert_eq!(files.len(), 2);
    assert_eq!(files[1].path, b"/work/neo/.cargo/more.toml");
    visits.pop();
    assert!(refusal(find_files(&root, home, &visits))
        .starts_with("Cargo configuration was not looked at: "));
    assert!(refusal(find_files(&root, home, &Vec::new()))
        .starts_with("Cargo configuration was not looked at: "));
    assert_eq!(
        refusal(find_files(&Err("gone".to_string()), home, &visits)),
        "gone"
    );
    let mut settings = fixture.settings();
    settings.visits.clear();
    assert!(refusal(check_settings(ROOT.as_bytes(), &settings))
        .starts_with("Cargo configuration was not looked at: "));
}

#[test]
fn collects_regular_files() {
    let file = |path: &[u8]| Entry::File {
        path: path.to_vec(),
        mode: Ok(0o644),
    };
    let entries = Ok(vec![
        file(b"/app/a"),
        Entry::Link,
        Entry::Directory {
            path: b"/app/d".to_vec(),
            entries: Ok(vec![file(b"/app/d/b"), Entry::Special]),
        },
        file(b"/app/c"),
    ]);
    assert_eq!(
        regular_files(&entries).unwrap(),
        [
            b"/app/a".to_vec(),
            b"/app/d/b".to_vec(),
            b"/app/c".to_vec()
        ]
    );
    assert_eq!(
        refusal(regular_files(&Ok(vec![Entry::Directory {
            path: b"/app/d".to_vec(),
            entries: Err("closed".to_string()),
        }]))),
        "closed"
    );
    assert_eq!(
        attribute_names(b"/app/a", &wrote(b"one\n\ntwo\n")).unwrap(),
        [b"one".to_vec(), b"two".to_vec()]
    );
}

fn plist_with(body: &str) -> Vec<u8> {
    format!("<?xml version=\"1.0\" encoding=\"UTF-8\"?>\n<plist version=\"1.0\"><dict>{body}</dict></plist>").into_bytes()
}

#[test]
fn keeps_all_other_values_of_the_property_list() {
    let contents = plist_with("<key>A</key><string>text</string><key>LSRequiresCarbon</key><true/><key>B</key><integer>7</integer><key>C</key><array><true/><real>1.5</real></array><key>D</key><date>9999-12-31T23:59:59Z</date><key>E</key><data>AAEC</data><key>F</key><dict><key>G</key><false/></dict>");
    let before = dictionary_in(&contents);
    let after = dictionary_in(&remove_carbon_key(b"/app/Info.plist", &Ok(contents)).unwrap());
    assert_eq!(after.len(), before.len() - 1);
    assert!(after.get("LSRequiresCarbon").is_none());
    for (key, value) in &after {
        assert_eq!(before.get(key), Some(value));
    }
}

#[test]
fn refuses_dates_that_the_outside_reader_and_writer_cannot_take() {
    assert_eq!(
        refusal(remove_carbon_key(
            b"/app/Info.plist",
            &Ok(plist_with("<key>A</key><date>9999-12-31T23:59:59-01:00</date>"))
        )),
        "property list holds a date beyond the year 9999"
    );
    assert_eq!(
        refusal(remove_carbon_key(
            b"/app/Info.plist",
            &Ok(plist_with("<key>A</key><array><date>0000-01-01T00:00:00+01:00</date></array>"))
        )),
        "property list holds a date outside the years from 0 to 9999"
    );
    remove_carbon_key(
        b"/app/Info.plist",
        &Ok(plist_with("<key>A</key><date>0000-01-01T00:00:00Z</date>")),
    )
    .unwrap();
}

#[test]
fn judges_a_date_by_all_of_its_pieces() {
    for far in [
        "<:date>9999-12-31T23:59:59-01:00</:date>",
        "<x:date>9999-12-31T23:59:59-01:00</x:date>",
        "<a\">\":date>9999-12-31T23:59:59-01:00</a\">\":date>",
        "<date a=\">\" >9999-12-31T23:59:59-01:00</date>",
        "<date><!-- c -->9999-12-31T23:59:59-01:00</date>",
        "<date>9999-12-31<![CDATA[>]]>T23:59:59<?p q?>-01:00</date>",
        "<date>9999&#45;12&#x2D;31T23:59:59&none;&#045;01:00</date>",
        "<date>9999-12-31&amp;23:59:59.5-00:01</date>",
        "<date>9999-12-31<!DOCTYPE \">\">T23:59:59-01:00</date>",
    ] {
        assert_eq!(
            refusal(remove_carbon_key(
                b"/app/Info.plist",
                &Ok(plist_with(&format!("<key>A</key>{far}")))
            )),
            "property list holds a date beyond the year 9999",
            "{far}"
        );
    }
    for (near, date) in [
        ("<date><!-- c -->2020-01-01T00:00:00Z</date>", "2020-01-01T00:00:00Z"),
        ("<date>2020-01-01T00:00:00&#90;</date>", "2020-01-01T00:00:00Z"),
        ("<date>9999-12-31<!-- > -->T22:59:59-01:00</date>", "9999-12-31T23:59:59Z"),
        ("<:date>9999-12-31T00:00:00-01:00</:date>", "9999-12-31T01:00:00Z"),
        ("<date>9999-12-31T23:59:59-00:00</date>", "9999-12-31T23:59:59Z"),
        ("<date>2020-01-01<!DOCTYPE x>T00:00:00Z</date>", "2020-01-01T00:00:00Z"),
    ] {
        let written = remove_carbon_key(
            b"/app/Info.plist",
            &Ok(plist_with(&format!("<key>A</key>{near}"))),
        )
        .unwrap();
        assert_eq!(
            dictionary_in(&written).get("A").and_then(Value::as_date),
            Some(plist::Date::from_xml_format(date).unwrap()),
            "{near}"
        );
    }
}

#[test]
fn tells_why_a_property_list_cannot_be_read() {
    let told = |contents: &[u8]| {
        let error = Value::from_reader(std::io::Cursor::new(contents)).unwrap_err();
        match std::error::Error::source(&error) {
            Some(cause) => format!("{error}\ncaused by: {cause}"),
            None => error.to_string(),
        }
    };
    for contents in [&b"short"[..], b"<?xml version=\"1.0\"?><plist><none/></plist>"] {
        assert_eq!(
            refusal(remove_carbon_key(b"/app/Info.plist", &Ok(contents.to_vec()))),
            told(contents)
        );
    }
    assert!(told(b"short").contains("\ncaused by: "));
}

#[test]
fn reads_texts_that_look_like_far_dates() {
    let text = "<date>9999-12-31T23:59:59-01:00</date>";
    let mut dictionary = Dictionary::new();
    dictionary.insert("A".to_string(), Value::String(text.to_string()));
    let mut binary = Vec::new();
    Value::Dictionary(dictionary)
        .to_writer_binary(&mut binary)
        .unwrap();
    let escaped = plist_with(&format!("<key>A</key><string>{}</string>", text.replace('<', "&lt;")));
    for contents in [binary, escaped] {
        let written = remove_carbon_key(b"/app/Info.plist", &Ok(contents)).unwrap();
        assert_eq!(
            dictionary_in(&written).get("A").and_then(Value::as_string),
            Some(text)
        );
    }
    for body in [
        "<key>A</key><string>a:date>9999-12-31T23:59:59-01:00</string>".to_string(),
        "<key>A</key><string><?x:date ?>9999-12-31T23:59:59-01:00</string>".to_string(),
        format!("<!-- {text} --><key>A</key><string>9999-12-31T23:59:59-01:00</string>"),
        format!("<key>A</key><string><![CDATA[{text}]]></string>"),
        format!("<?p {text}?><key>A</key><true a='{text}'/>"),
    ] {
        let contents = plist_with(&body);
        let before = dictionary_in(&contents);
        let written = remove_carbon_key(b"/app/Info.plist", &Ok(contents)).unwrap();
        assert_eq!(dictionary_in(&written), before);
    }
}

#[test]
fn reads_on_behind_a_document_type() {
    let document = |doctype: &str, body: &str| {
        format!("<?xml version=\"1.0\"?><!DOCTYPE plist {doctype}><plist><dict>{body}</dict></plist>")
            .into_bytes()
    };
    let public = "PUBLIC \"-//Apple//DTD PLIST 1.0//EN\" \"http://www.apple.com/DTDs/PropertyList-1.0.dtd\"";
    let declared = "[<!ENTITY a \"]>\">]";
    let far = "<key>A</key><date>9999-12-31T23:59:59-01:00</date>";
    for doctype in [public, declared, "SYSTEM '>'"] {
        assert_eq!(
            refusal(remove_carbon_key(b"/app/Info.plist", &Ok(document(doctype, far)))),
            "property list holds a date beyond the year 9999"
        );
        let near = document(doctype, "<key>A</key><date>2020-01-01T00:00:00-01:00</date>");
        remove_carbon_key(b"/app/Info.plist", &Ok(near)).unwrap();
    }
    let commented = format!("<!-- {far} -->");
    remove_carbon_key(b"/app/Info.plist", &Ok(document(public, &commented))).unwrap();
    refusal(remove_carbon_key(b"/app/Info.plist", &Ok(document(declared, &commented))));
}

#[test]
fn names_notices_that_are_no_text_as_reading_them_does() {
    let mut fixture = Fixture::valid();
    fixture.write(&fixture.root(NOTICES), b"\xff");
    fixture.write(&fixture.app(BUNDLED_NOTICES), b"\xff");
    let mut text = String::new();
    let fault = std::io::Read::read_to_string(&mut std::io::Cursor::new(b"\xff"), &mut text)
        .unwrap_err();
    assert_eq!(refusal(fixture.verify_debug()), fault.to_string());
}
