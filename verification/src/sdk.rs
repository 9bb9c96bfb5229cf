//! The version of the macOS SDK.

use vstd::prelude::*;

use crate::command::{attempt, CommandOutput, Output};
use crate::encoding::{decode, decoded, lossy, lossy_text, quoted, quoted_text};
use crate::failure::{outcome, text_outcome, Failure};
use crate::text::{
    all_digits, are_digits, ascii_digit, chars_of, decimal, decimal_text, decimal_value,
    first_index, join2, join3, join4, law_splits_at_every_separator, lemma_first_index_bounds,
    parse_digits, pieces, split, split_chars, text_of, trim, trimmed,
};

verus! {

/// The oldest major version of the SDK that is built with.
pub const MINIMUM_SDK_MAJOR: u32 = 26;

/// The major version that a text announces: the digits before its first dot.
pub open spec fn major_of(version: Seq<char>) -> Result<u32, Seq<char>> {
    let major = split(version, '.')[0];
    if major.len() == 0 || !all_digits(major) {
        Err("xcrun returned an unparseable SDK version "@ + quoted(version))
    } else if decimal_value(major) > u32::MAX {
        Err(
            "cannot parse SDK major version "@ + quoted(major)
                + ": number too large to fit in target type"@,
        )
    } else {
        Ok(decimal_value(major) as u32)
    }
}

/// The major version that the output of `xcrun --show-sdk-version` announces.
pub open spec fn sdk_major(output: Seq<u8>) -> Result<u32, Seq<char>> {
    match decoded(output) {
        Err(fault) => Err("xcrun returned a non-UTF-8 SDK version: "@ + fault),
        Ok(text) => major_of(trim(text)),
    }
}

/// The major version that the output of `xcrun --show-sdk-version` announces.
pub fn parse_sdk_major(output: &[u8]) -> (result: Result<u32, Failure>)
    ensures
        outcome(result) == sdk_major(output@),
{
    let text = match decode(output) {
        Ok(text) => text,
        Err(fault) => return Err(
            Failure { message: join2("xcrun returned a non-UTF-8 SDK version: ", fault.as_str()) },
        ),
    };
    let chars = chars_of(text.as_str());
    let version = trimmed(chars.as_slice());
    let parts = split_chars(version, '.');
    assert(split(version@, '.').len() > 0);
    assert(pieces(parts@).len() == parts@.len());
    let major = parts[0];
    assert(pieces(parts@)[0] == major@);
    if major.len() == 0 || !are_digits(major) {
        let shown = quoted_text(text_of(version).as_str());
        return Err(
            Failure {
                message: join2("xcrun returned an unparseable SDK version ", shown.as_str()),
            },
        );
    }
    match parse_digits(major) {
        Some(value) => Ok(value),
        None => {
            let shown = quoted_text(text_of(major).as_str());
            Err(
                Failure {
                    message: join3(
                        "cannot parse SDK major version ",
                        shown.as_str(),
                        ": number too large to fit in target type",
                    ),
                },
            )
        },
    }
}

/// What `verify_sdk` returns: the sentence that reports success, or a refusal.
pub open spec fn sdk_outcome(attempt: Result<Output, Seq<char>>) -> Result<Seq<char>, Seq<char>> {
    match attempt {
        Err(fault) => Err("cannot run xcrun --show-sdk-version: "@ + fault),
        Ok(output) => if !output.success {
            Err(
                "xcrun --show-sdk-version exited with "@ + output.status + ": "@ + trim(
                    lossy(output.stderr),
                ),
            )
        } else {
            match sdk_major(output.stdout) {
                Err(refusal) => Err(refusal),
                Ok(major) => if major < MINIMUM_SDK_MAJOR {
                    Err(
                        "macOS SDK major version "@ + decimal(major as nat)
                            + " is below the required "@ + decimal(MINIMUM_SDK_MAJOR as nat),
                    )
                } else {
                    Ok("verified macOS SDK major version "@ + decimal(major as nat))
                },
            }
        },
    }
}

/// Judges what `xcrun --show-sdk-version` gave.
pub fn verify_sdk(attempted: &Result<CommandOutput, String>) -> (result: Result<String, Failure>)
    ensures
        text_outcome(result) == sdk_outcome(attempt(*attempted)),
{
    let output = match attempted {
        Ok(output) => output,
        Err(fault) => return Err(
            Failure { message: join2("cannot run xcrun --show-sdk-version: ", fault.as_str()) },
        ),
    };
    if !output.success {
        let complaint = chars_of(lossy_text(output.stderr.as_slice()).as_str());
        let told = text_of(trimmed(complaint.as_slice()));
        return Err(
            Failure {
                message: join4(
                    "xcrun --show-sdk-version exited with ",
                    output.status.as_str(),
                    ": ",
                    told.as_str(),
                ),
            },
        );
    }
    let major = match parse_sdk_major(output.stdout.as_slice()) {
        Ok(major) => major,
        Err(refusal) => return Err(refusal),
    };
    let shown = decimal_text(major as u64);
    if major < MINIMUM_SDK_MAJOR {
        let required = decimal_text(MINIMUM_SDK_MAJOR as u64);
        return Err(
            Failure {
                message: join4(
                    "macOS SDK major version ",
                    shown.as_str(),
                    " is below the required ",
                    required.as_str(),
                ),
            },
        );
    }
    Ok(join2("verified macOS SDK major version ", shown.as_str()))
}

/// An SDK is accepted from major version 26 on, however new it is, and an older one is refused.
pub proof fn law_sdks_from_26_on_are_accepted(output: Output, major: u32)
    requires
        output.success,
        sdk_major(output.stdout) == Ok::<u32, Seq<char>>(major),
    ensures
        sdk_outcome(Ok(output)) is Ok <==> major >= 26,
        major >= 26 ==> sdk_outcome(Ok(output)) == Ok::<Seq<char>, Seq<char>>(
            "verified macOS SDK major version "@ + decimal(major as nat),
        ),
        major < 26 ==> sdk_outcome(Ok(output)) == Err::<Seq<char>, Seq<char>>(
            "macOS SDK major version "@ + decimal(major as nat) + " is below the required "@
                + decimal(26),
        ),
{
}

/// Where `xcrun` did not run, did not succeed or told no version, no SDK is accepted.
pub proof fn law_unknown_sdks_are_refused(attempt: Result<Output, Seq<char>>)
    requires
        sdk_outcome(attempt) is Ok,
    ensures
        attempt is Ok,
        attempt->Ok_0.success,
        sdk_major(attempt->Ok_0.stdout) is Ok,
{
}

/// The major version is the number before the first dot, whatever follows it.
pub proof fn law_major_stands_before_the_first_dot(digits: Seq<char>, behind: Seq<char>)
    requires
        digits.len() > 0,
        all_digits(digits),
    ensures
        decimal_value(digits) <= u32::MAX ==> major_of(digits) == Ok::<u32, Seq<char>>(
            decimal_value(digits) as u32,
        ),
        decimal_value(digits) <= u32::MAX ==> major_of(digits.push('.') + behind) == Ok::<
            u32,
            Seq<char>,
        >(decimal_value(digits) as u32),
        decimal_value(digits) > u32::MAX ==> major_of(digits.push('.') + behind) is Err,
{
    assert(!digits.contains('.')) by {
        assert forall|i: int| 0 <= i < digits.len() implies digits[i] != '.' by {
            assert(ascii_digit(digits[i]));
        }
    }
    law_splits_at_every_separator(digits, '.', behind);
    assert((seq![digits] + split(behind, '.'))[0] == digits);
}

/// A version that is accepted starts with digits, and nothing but a dot follows them.
pub proof fn law_accepted_versions_start_with_digits(version: Seq<char>) -> (n: int)
    requires
        major_of(version) is Ok,
    ensures
        0 < n <= version.len(),
        all_digits(version.take(n)),
        n == version.len() || version[n] == '.',
        major_of(version)->Ok_0 == decimal_value(version.take(n)),
{
    let n = first_index(version, '.');
    lemma_first_index_bounds(version, '.');
    assert(version.take(version.len() as int) == version);
    n
}

} // verus!
