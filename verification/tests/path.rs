//! Paths, texts and their order, held against what the standard library says of them.

use neo::bytes::contains_bytes;
use neo::digest::sha256_hex;
use neo::macho::{cpu_type_name, format_uuid, macho_identity, read_macho_u32, read_macho_u64};
use neo::order::sort_and_dedup;
use neo::path::{
    ancestors_of, extension_of, file_name_of, is_absolute, is_below, is_same_place, join,
    parent_of, path_components, repository_root,
};
use neo::text::{chars_of, decimal_text, is_white_space, lines, split_words, text_of, trimmed};
use std::path::{Path, PathBuf};

const PATHS: [&str; 26] = [
    "",
    "/",
    "//",
    ".",
    "..",
    "./",
    "a",
    "a/",
    "a//",
    "a/.",
    "a/./b",
    "a/../b",
    "/a",
    "//a",
    "/a/b",
    "/a//b/",
    "/a/b/.",
    "/a/b/..",
    "/.",
    "/..",
    "./a",
    "a.b",
    ".a",
    "a.b.c",
    "a.",
    "/var/folders/ab/T/x.app",
];

fn bytes(path: &Path) -> &[u8] {
    path.to_str().unwrap().as_bytes()
}

#[test]
fn takes_paths_apart_as_the_standard_library_does() {
    for text in PATHS {
        let path = Path::new(text);
        assert_eq!(is_absolute(text.as_bytes()), path.is_absolute(), "{text:?}");
        assert_eq!(
            parent_of(text.as_bytes()),
            path.parent().map(bytes),
            "{text:?}"
        );
        assert_eq!(
            file_name_of(text.as_bytes()),
            path.file_name().map(|name| name.to_str().unwrap().as_bytes()),
            "{text:?}"
        );
        assert_eq!(
            extension_of(text.as_bytes()),
            path.extension().map(|name| name.to_str().unwrap().as_bytes()),
            "{text:?}"
        );
        let expected: Vec<&[u8]> = path.ancestors().map(bytes).collect();
        assert_eq!(ancestors_of(text.as_bytes()), expected, "{text:?}");
        assert_eq!(
            path_components(text.as_bytes()).len(),
            path.components().count(),
            "{text:?}"
        );
    }
}

#[test]
fn relates_paths_as_the_standard_library_does() {
    for left in PATHS {
        for right in PATHS {
            let (a, b) = (Path::new(left), Path::new(right));
            assert_eq!(
                join(left.as_bytes(), right.as_bytes()),
                bytes(&a.join(b)),
                "{left:?} {right:?}"
            );
            assert_eq!(
                is_below(left.as_bytes(), right.as_bytes()),
                a.starts_with(b),
                "{left:?} {right:?}"
            );
            assert_eq!(
                is_same_place(left.as_bytes(), right.as_bytes()),
                a == b,
                "{left:?} {right:?}"
            );
        }
    }
}

#[test]
fn sorts_paths_as_the_standard_library_does() {
    let mut expected: Vec<PathBuf> = PATHS.iter().rev().map(PathBuf::from).collect();
    let ours: Vec<Vec<u8>> = expected.iter().map(|path| bytes(path).to_vec()).collect();
    expected.sort();
    expected.dedup();
    let expected: Vec<&[u8]> = expected.iter().map(|path| bytes(path)).collect();
    assert_eq!(sort_and_dedup(&ours), expected);
}

#[test]
fn finds_the_repository_above_the_program() {
    assert_eq!(repository_root(b"/work/neo/xtask"), b"/work/neo");
}

#[test]
fn knows_white_space() {
    for c in (0..=0x10ffffu32).filter_map(char::from_u32) {
        assert_eq!(is_white_space(c), c.is_whitespace(), "{c:?}");
    }
}

#[test]
fn splits_texts_as_the_standard_library_does() {
    for text in [
        "",
        "\n",
        "a",
        "a\n",
        "a\r\nb\n\r\nc\r",
        "\n\na b\tc \u{a0}d\u{2003}\n",
        "  x\u{b}y\u{c}z  ",
    ] {
        let chars = chars_of(text);
        let ours: Vec<String> = lines(&chars).into_iter().map(text_of).collect();
        assert_eq!(ours, text.lines().collect::<Vec<_>>(), "{text:?}");
        let ours: Vec<String> = split_words(&chars, false).into_iter().map(text_of).collect();
        assert_eq!(ours, text.split_whitespace().collect::<Vec<_>>(), "{text:?}");
        let ours: Vec<String> = split_words(&chars, true).into_iter().map(text_of).collect();
        assert_eq!(
            ours,
            text.split_ascii_whitespace().collect::<Vec<_>>(),
            "{text:?}"
        );
        assert_eq!(text_of(trimmed(&chars)), text.trim(), "{text:?}");
    }
    for n in [0, 7, 10, 99, 100, u64::MAX] {
        assert_eq!(decimal_text(n), n.to_string());
    }
}

#[test]
fn finds_bytes() {
    assert!(contains_bytes(b"abc", b"bc"));
    assert!(contains_bytes(b"abc", b"abc"));
    assert!(!contains_bytes(b"abc", b"ac"));
    assert!(!contains_bytes(b"abc", b"abcd"));
    assert!(!contains_bytes(b"abc", b""));
}

#[test]
fn hashes_bytes() {
    assert_eq!(
        sha256_hex(b""),
        "e3b0c44298fc1c149afbf4c8996fb92427ae41e4649b934ca495991b7852b855"
    );
    assert_eq!(
        sha256_hex(b"abc"),
        "ba7816bf8f01cfea414140de5dae2223b00361a396177a9cb410ff61f20015ad"
    );
}

fn header(command_count: u32, command_bytes: u32) -> Vec<u8> {
    let mut bytes = Vec::new();
    for word in [
        0xfeed_facfu32,
        0x0100_000c,
        3,
        2,
        command_count,
        command_bytes,
        0,
        0,
    ] {
        bytes.extend_from_slice(&word.to_le_bytes());
    }
    bytes
}

fn command(kind: u32, size: u32) -> Vec<u8> {
    let mut bytes = Vec::new();
    bytes.extend_from_slice(&kind.to_le_bytes());
    bytes.extend_from_slice(&size.to_le_bytes());
    bytes.resize(size as usize, 0x11);
    bytes
}

fn segment(file_offset: u64, file_size: u64) -> Vec<u8> {
    let mut bytes = command(0x19, 72);
    bytes[40..48].copy_from_slice(&file_offset.to_le_bytes());
    bytes[48..56].copy_from_slice(&file_size.to_le_bytes());
    bytes
}

fn file(commands: &[Vec<u8>]) -> Vec<u8> {
    let area = commands.concat();
    let mut bytes = header(commands.len() as u32, area.len() as u32);
    bytes.extend_from_slice(&area);
    bytes
}

fn macho_refusal(bytes: &[u8]) -> String {
    match macho_identity(bytes) {
        Ok(_) => panic!("accepted"),
        Err(refusal) => refusal.message().to_string(),
    }
}

#[test]
fn reads_the_identity_of_an_executable() {
    let uuid = command(0x1b, 24);
    let whole = file(&[segment(0, 100), command(2, 8), uuid.clone()]);
    let identity = macho_identity(&whole).unwrap();
    assert_eq!(identity.cpu_type, 0x0100_000c);
    assert_eq!(identity.cpu_subtype, 3);
    assert_eq!(identity.uuid, [0x11; 16]);
}

#[test]
fn names_the_fault_of_an_executable() {
    let uuid = command(0x1b, 24);
    for magic in [0xcafe_babeu32, 0xcafe_babf] {
        assert_eq!(
            macho_refusal(&magic.to_be_bytes()),
            "fat Mach-O is unsupported"
        );
        assert_eq!(
            macho_refusal(&magic.to_le_bytes()),
            "fat Mach-O is unsupported"
        );
    }
    assert_eq!(
        macho_refusal(&0xfeed_faceu32.to_le_bytes()),
        "32-bit Mach-O is unsupported"
    );
    assert_eq!(
        macho_refusal(&0xfeed_faceu32.to_be_bytes()),
        "32-bit Mach-O is unsupported"
    );
    assert_eq!(macho_refusal(b"\xcf\xfa\xed"), "no supported Mach-O magic");
    assert_eq!(
        macho_refusal(&header(0, 0)[..31]),
        "truncated Mach-O header"
    );
    assert_eq!(
        macho_refusal(&header(0, 1)),
        "truncated Mach-O load command area"
    );
    assert_eq!(
        macho_refusal(&header(1, 0)),
        "truncated Mach-O load command header"
    );
    let mut short = header(1, 8);
    short.extend_from_slice(&[2, 0, 0, 0, 7, 0, 0, 0]);
    assert_eq!(macho_refusal(&short), "invalid Mach-O load command size");
    let mut long = header(1, 8);
    long.extend_from_slice(&[2, 0, 0, 0, 9, 0, 0, 0]);
    assert_eq!(macho_refusal(&long), "truncated Mach-O load command");
    assert_eq!(
        macho_refusal(&file(&[command(0x19, 71)])),
        "invalid LC_SEGMENT_64 load command size"
    );
    assert_eq!(
        macho_refusal(&file(&[segment(u64::MAX, 1), uuid.clone()])),
        "Mach-O segment file range overflows"
    );
    assert_eq!(
        macho_refusal(&file(&[segment(100, 29), uuid.clone()])),
        "truncated Mach-O segment data"
    );
    assert!(macho_identity(&file(&[segment(100, 28), uuid.clone()])).is_ok());
    assert_eq!(
        macho_refusal(&file(&[command(0x1b, 25)])),
        "invalid LC_UUID load command size"
    );
    assert_eq!(
        macho_refusal(&file(&[uuid.clone(), uuid.clone()])),
        "duplicate LC_UUID load command"
    );
    assert_eq!(
        macho_refusal(&file(&[])),
        "Mach-O has no LC_UUID load command"
    );
    let mut uncounted = file(&[uuid.clone(), uuid.clone()]);
    uncounted[16] = 1;
    assert_eq!(
        macho_refusal(&uncounted),
        "Mach-O load command sizes do not match header"
    );
}

#[test]
fn reads_words_and_names_of_executables() {
    let bytes = [1, 2, 3, 4, 5, 6, 7, 8, 9];
    assert_eq!(read_macho_u32(&bytes, 1).unwrap(), 0x0504_0302);
    assert_eq!(read_macho_u64(&bytes, 1).unwrap(), 0x0908_0706_0504_0302);
    assert_eq!(
        read_macho_u32(&bytes, 6).unwrap_err().message(),
        "truncated Mach-O integer"
    );
    assert_eq!(
        read_macho_u64(&bytes, 2).unwrap_err().message(),
        "truncated Mach-O integer"
    );
    assert_eq!(cpu_type_name(0x0100_000c), "arm64");
    assert_eq!(cpu_type_name(0x0100_0007), "x86_64");
    assert_eq!(cpu_type_name(0xab), "0x000000AB");
    assert_eq!(
        format_uuid(&[0, 1, 2, 3, 4, 5, 6, 7, 8, 9, 10, 11, 12, 13, 14, 0xff]),
        "00010203-0405-0607-0809-0A0B0C0D0EFF"
    );
}
