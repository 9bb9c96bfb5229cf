//! Where the sources of libneo come from.

use vstd::prelude::*;
use vstd::utf8::{encode_utf8, is_ascii_chars_encode_utf8};

use crate::bytes::{contained, contains_bytes, read};
use crate::encoding::{lossy, lossy_text};
use crate::failure::{failure, outcome, text_outcome, Failure};
use crate::path::{join_text, joined};
use crate::text::{join2, join4, occurs};

verus! {

/// The only source that libneo may come from.
pub const LIBNEO_HTTPS_SOURCE: &'static str = "https://github.com/superneoai/libneo.git";

/// What the manifest and the lock file are told.
pub open spec fn pinned_outcome(manifest: Seq<u8>, lockfile: Seq<u8>) -> Result<(), Seq<char>> {
    if !contained(manifest, encode_utf8(LIBNEO_HTTPS_SOURCE@)) {
        Err("Cargo.toml does not contain the required libneo source "@ + LIBNEO_HTTPS_SOURCE@)
    } else if contained(manifest, encode_utf8("ssh://"@)) {
        Err("Cargo.toml contains an ssh:// URL; libneo sources must use HTTPS"@)
    } else if contained(lockfile, encode_utf8("ssh://"@)) {
        Err("Cargo.lock contains an ssh:// URL; libneo sources must use HTTPS"@)
    } else {
        Ok(())
    }
}

/// Refuses a manifest that does not name the HTTPS source, and either file where it names a source
/// by SSH.
pub fn verify_pinned_source_contents(manifest: &[u8], lockfile: &[u8]) -> (result: Result<
    (),
    Failure,
>)
    ensures
        outcome(result) == pinned_outcome(manifest@, lockfile@),
{
    if !contains_bytes(manifest, LIBNEO_HTTPS_SOURCE.as_bytes()) {
        return Err(
            Failure {
                message: join2(
                    "Cargo.toml does not contain the required libneo source ",
                    LIBNEO_HTTPS_SOURCE,
                ),
            },
        );
    }
    if contains_bytes(manifest, "ssh://".as_bytes()) {
        return Err(failure("Cargo.toml contains an ssh:// URL; libneo sources must use HTTPS"));
    }
    if contains_bytes(lockfile, "ssh://".as_bytes()) {
        return Err(failure("Cargo.lock contains an ssh:// URL; libneo sources must use HTTPS"));
    }
    Ok(())
}

/// That a file could not be read.
pub open spec fn unreadable(path: Seq<u8>, fault: Seq<char>) -> Seq<char> {
    "cannot read "@ + lossy(path) + ": "@ + fault
}

/// That a file could not be read.
pub fn cannot_read(path: &[u8], fault: &str) -> (refusal: Failure)
    ensures
        refusal@ == unreadable(path@, fault@),
{
    let shown = lossy_text(path);
    Failure { message: join4("cannot read ", shown.as_str(), ": ", fault) }
}

/// What `verify_pinned_source` returns: the sentence that reports success, or a refusal.
pub open spec fn source_outcome(
    root: Seq<u8>,
    manifest: Result<Seq<u8>, Seq<char>>,
    lockfile: Result<Seq<u8>, Seq<char>>,
) -> Result<Seq<char>, Seq<char>> {
    match manifest {
        Err(fault) => Err(unreadable(joined(root, encode_utf8("Cargo.toml"@)), fault)),
        Ok(manifest) => match lockfile {
            Err(fault) => Err(unreadable(joined(root, encode_utf8("Cargo.lock"@)), fault)),
            Ok(lockfile) => match pinned_outcome(manifest, lockfile) {
                Ok(()) => Ok("verified libneo uses the pinned HTTPS source"@),
                Err(refusal) => Err(refusal),
            },
        },
    }
}

/// Checks the manifest and the lock file that were read in the repository at `root`.
pub fn verify_pinned_source(
    root: &[u8],
    manifest: &Result<Vec<u8>, String>,
    lockfile: &Result<Vec<u8>, String>,
) -> (result: Result<String, Failure>)
    ensures
        text_outcome(result) == source_outcome(root@, read(*manifest), read(*lockfile)),
{
    let manifest = match manifest {
        Ok(manifest) => manifest,
        Err(fault) => return Err(
            cannot_read(join_text(root, "Cargo.toml").as_slice(), fault.as_str()),
        ),
    };
    let lockfile = match lockfile {
        Ok(lockfile) => lockfile,
        Err(fault) => return Err(
            cannot_read(join_text(root, "Cargo.lock").as_slice(), fault.as_str()),
        ),
    };
    match verify_pinned_source_contents(manifest.as_slice(), lockfile.as_slice()) {
        Ok(()) => Ok("verified libneo uses the pinned HTTPS source".to_string()),
        Err(refusal) => Err(refusal),
    }
}

/// The files are accepted exactly where the manifest names the HTTPS source and neither file names a
/// source by SSH.
pub proof fn law_accepted_sources_use_https(manifest: Seq<u8>, lockfile: Seq<u8>)
    ensures
        pinned_outcome(manifest, lockfile) is Ok <==> contained(
            manifest,
            encode_utf8(LIBNEO_HTTPS_SOURCE@),
        ) && !contained(manifest, encode_utf8("ssh://"@)) && !contained(
            lockfile,
            encode_utf8("ssh://"@),
        ),
{
}

/// The repository is accepted where, and only where, both files can be read, the manifest names the
/// source by HTTPS, and neither file has an SSH address anywhere.
pub proof fn law_sources_that_are_accepted(
    root: Seq<u8>,
    manifest: Result<Seq<u8>, Seq<char>>,
    lockfile: Result<Seq<u8>, Seq<char>>,
)
    ensures
        source_outcome(root, manifest, lockfile) is Ok <==> {
            &&& manifest is Ok
            &&& lockfile is Ok
            &&& occurs(
                manifest->Ok_0,
                encode_utf8("https://github.com/superneoai/libneo.git"@),
            )
            &&& !occurs(manifest->Ok_0, encode_utf8("ssh://"@))
            &&& !occurs(lockfile->Ok_0, encode_utf8("ssh://"@))
        },
{
    reveal_strlit("https://github.com/superneoai/libneo.git");
    reveal_strlit("ssh://");
    is_ascii_chars_encode_utf8("https://github.com/superneoai/libneo.git"@);
    is_ascii_chars_encode_utf8("ssh://"@);
}

/// A refused repository is told which file is at fault, and what of it.
pub proof fn law_refused_sources_are_told(
    root: Seq<u8>,
    manifest: Result<Seq<u8>, Seq<char>>,
    lockfile: Result<Seq<u8>, Seq<char>>,
)
    ensures
        manifest is Err ==> source_outcome(root, manifest, lockfile) == Err::<Seq<char>, Seq<char>>(
            "cannot read "@ + lossy(joined(root, encode_utf8("Cargo.toml"@))) + ": "@
                + manifest->Err_0,
        ),
        manifest is Ok && lockfile is Err ==> source_outcome(root, manifest, lockfile) == Err::<
            Seq<char>,
            Seq<char>,
        >(
            "cannot read "@ + lossy(joined(root, encode_utf8("Cargo.lock"@))) + ": "@
                + lockfile->Err_0,
        ),
        manifest is Ok && lockfile is Ok && !occurs(
            manifest->Ok_0,
            encode_utf8("https://github.com/superneoai/libneo.git"@),
        ) ==> source_outcome(root, manifest, lockfile) == Err::<Seq<char>, Seq<char>>(
            "Cargo.toml does not contain the required libneo source "@
                + "https://github.com/superneoai/libneo.git"@,
        ),
{
}

} // verus!
