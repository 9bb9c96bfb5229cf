//! The flags that the release build hands to the compiler.

use vstd::prelude::*;
use vstd::utf8::{encode_utf8, is_ascii_chars, is_ascii_chars_encode_utf8};

use crate::bytes::{byte_strings, owned, same_bytes, split_bytes, strip_byte_prefix};
use crate::encoding::{lossy, lossy_text};
use crate::failure::{outcome, Failure};
use crate::text::{
    after_prefix, first_index, join3, law_splits_at_every_separator, lemma_first_index_bounds,
    pieces, split,
};

verus! {

/// The byte that separates encoded flags.
pub const ENCODED_SEPARATOR: u8 = 0x1f;

/// The parts of `flags` between separators that are not empty.
pub open spec fn flags_in(flags: Seq<u8>, separator: u8) -> Seq<Seq<u8>> {
    split(flags, separator).filter(|flag: Seq<u8>| flag.len() > 0)
}

/// The flags of the environment: the encoded ones where they are set, else the plain ones, which
/// spaces separate.
pub open spec fn ambient_flags(encoded: Option<Seq<u8>>, plain: Option<Seq<u8>>) -> Seq<Seq<u8>> {
    match encoded {
        Some(flags) => flags_in(flags, ENCODED_SEPARATOR),
        None => match plain {
            Some(flags) => flags_in(flags, ' ' as u8),
            None => Seq::empty(),
        },
    }
}

/// The parts of `flags` between separators that are not empty.
fn split_flags(flags: &[u8], separator: u8) -> (result: Vec<Vec<u8>>)
    ensures
        byte_strings(result@) == flags_in(flags@, separator),
{
    let parts = split_bytes(flags, separator);
    let ghost all = pieces(parts@);
    let ghost kept = |flag: Seq<u8>| flag.len() > 0;
    let mut result: Vec<Vec<u8>> = Vec::new();
    let mut i: usize = 0;
    proof {
        reveal(Seq::filter);
        assert(byte_strings(result@) == all.take(0).filter(kept));
    }
    while i < parts.len()
        invariant
            i <= parts@.len(),
            all == pieces(parts@),
            kept == (|flag: Seq<u8>| flag.len() > 0),
            byte_strings(result@) == all.take(i as int).filter(kept),
        decreases parts@.len() - i,
    {
        let ghost before = byte_strings(result@);
        proof {
            reveal(Seq::filter);
            assert(all.take(i + 1).drop_last() == all.take(i as int));
            assert(all.take(i + 1).last() == parts@[i as int]@);
        }
        if parts[i].len() > 0 {
            result.push(owned(parts[i]));
            assert(byte_strings(result@) == before.push(parts@[i as int]@));
        }
        i += 1;
    }
    assert(all.take(i as int) == all);
    result
}

/// The flags of the environment, from the values of its two variables.
pub fn release_rustflags(encoded: Option<&[u8]>, plain: Option<&[u8]>) -> (flags: Vec<Vec<u8>>)
    ensures
        byte_strings(flags@) == ambient_flags(
            crate::text::piece(encoded),
            crate::text::piece(plain),
        ),
{
    match encoded {
        Some(flags) => split_flags(flags, ENCODED_SEPARATOR),
        None => match plain {
            Some(flags) => split_flags(flags, ' ' as u8),
            None => {
                let none: Vec<Vec<u8>> = Vec::new();
                assert(byte_strings(none@) == Seq::<Seq<u8>>::empty());
                none
            },
        },
    }
}

/// The name of a codegen option: what precedes its first `=`.
pub open spec fn option_name(option: Seq<u8>) -> Seq<u8> {
    split(option, '=' as u8)[0]
}

/// Whether a codegen option belongs to the release profile.
pub open spec fn owned_by_profile(name: Seq<u8>) -> bool {
    ||| name == encode_utf8("opt-level"@)
    ||| name == encode_utf8("debug-assertions"@)
    ||| name == encode_utf8("overflow-checks"@)
    ||| name == encode_utf8("debuginfo"@)
    ||| name == encode_utf8("panic"@)
    ||| name == encode_utf8("strip"@)
    ||| name == encode_utf8("lto"@)
    ||| name == encode_utf8("codegen-units"@)
}

/// The codegen option that a flag carries behind its `-C`, an `=` between them left out.
pub open spec fn attached_option(flag: Seq<u8>) -> Option<Seq<u8>> {
    match after_prefix(flag, encode_utf8("-C"@)) {
        Some(rest) => Some(
            match after_prefix(rest, encode_utf8("="@)) {
                Some(option) => option,
                None => rest,
            },
        ),
        None => None,
    }
}

/// The name of the first codegen option among `flags` that belongs to the release profile. An option
/// is the flag after a `-C`, or stands in one flag with it.
pub open spec fn profile_option(flags: Seq<Seq<u8>>) -> Option<Seq<u8>>
    decreases flags.len(),
{
    if flags.len() == 0 {
        None
    } else if flags[0] == encode_utf8("-C"@) {
        if flags.len() == 1 {
            None
        } else if owned_by_profile(option_name(flags[1])) {
            Some(option_name(flags[1]))
        } else {
            profile_option(flags.skip(2))
        }
    } else {
        match attached_option(flags[0]) {
            Some(option) => if owned_by_profile(option_name(option)) {
                Some(option_name(option))
            } else {
                profile_option(flags.skip(1))
            },
            None => profile_option(flags.skip(1)),
        }
    }
}

/// What the flags are told: the first option that belongs to the release profile is refused.
pub open spec fn codegen_outcome(flags: Seq<Seq<u8>>) -> Result<(), Seq<char>> {
    match profile_option(flags) {
        Some(name) => Err(
            "release rustflags cannot set "@ + lossy(name)
                + "; remove this profile-owned codegen option"@,
        ),
        None => Ok(()),
    }
}

/// Whether a codegen option belongs to the release profile.
fn is_owned_by_profile(name: &[u8]) -> (r: bool)
    ensures
        r == owned_by_profile(name@),
{
    same_bytes(name, "opt-level".as_bytes()) || same_bytes(name, "debug-assertions".as_bytes())
        || same_bytes(name, "overflow-checks".as_bytes()) || same_bytes(name, "debuginfo".as_bytes())
        || same_bytes(name, "panic".as_bytes()) || same_bytes(name, "strip".as_bytes())
        || same_bytes(name, "lto".as_bytes()) || same_bytes(name, "codegen-units".as_bytes())
}

/// Refuses an option that belongs to the release profile.
fn check_option(option: &[u8]) -> (result: Result<(), Failure>)
    ensures
        outcome(result) == (if owned_by_profile(option_name(option@)) {
            Err(
                "release rustflags cannot set "@ + lossy(option_name(option@))
                    + "; remove this profile-owned codegen option"@,
            )
        } else {
            Ok(())
        }),
{
    let parts = split_bytes(option, '=' as u8);
    assert(split(option@, '=' as u8).len() > 0);
    assert(pieces(parts@).len() == parts@.len());
    let name = parts[0];
    assert(pieces(parts@)[0] == name@);
    if is_owned_by_profile(name) {
        let shown = lossy_text(name);
        return Err(
            Failure {
                message: join3(
                    "release rustflags cannot set ",
                    shown.as_str(),
                    "; remove this profile-owned codegen option",
                ),
            },
        );
    }
    Ok(())
}

/// Refuses flags that set an option of the release profile.
pub fn reject_profile_codegen_rustflags(rustflags: &Vec<Vec<u8>>) -> (result: Result<(), Failure>)
    ensures
        outcome(result) == codegen_outcome(byte_strings(rustflags@)),
{
    let ghost flags = byte_strings(rustflags@);
    let mut i: usize = 0;
    assert(flags.skip(0) == flags);
    while i < rustflags.len()
        invariant
            i <= rustflags@.len(),
            flags == byte_strings(rustflags@),
            profile_option(flags) == profile_option(flags.skip(i as int)),
        decreases rustflags@.len() - i,
    {
        let ghost rest = flags.skip(i as int);
        let flag = rustflags[i].as_slice();
        assert(rest[0] == flag@);
        assert(rest.skip(1) == flags.skip(i + 1));
        if same_bytes(flag, "-C".as_bytes()) {
            if i + 1 == rustflags.len() {
                return Ok(());
            }
            assert(rest[1] == rustflags@[i + 1]@);
            assert(rest.skip(2) == flags.skip(i + 2));
            match check_option(rustflags[i + 1].as_slice()) {
                Ok(()) => {},
                Err(refusal) => return Err(refusal),
            }
            i += 2;
        } else {
            match strip_byte_prefix(flag, "-C".as_bytes()) {
                Some(attached) => {
                    let option = match strip_byte_prefix(attached, "=".as_bytes()) {
                        Some(option) => option,
                        None => attached,
                    };
                    match check_option(option) {
                        Ok(()) => {},
                        Err(refusal) => return Err(refusal),
                    }
                },
                None => {},
            }
            i += 1;
        }
    }
    Ok(())
}

/// The plain flags count for nothing where the encoded ones are set.
pub proof fn law_encoded_flags_override_plain_ones(
    encoded: Seq<u8>,
    plain: Option<Seq<u8>>,
    other: Option<Seq<u8>>,
)
    ensures
        ambient_flags(Some(encoded), plain) == ambient_flags(Some(encoded), other),
{
}

/// A flag of the environment is never empty.
pub proof fn law_ambient_flags_are_not_empty(encoded: Option<Seq<u8>>, plain: Option<Seq<u8>>)
    ensures
        forall|i: int|
            0 <= i < ambient_flags(encoded, plain).len() ==> (#[trigger] ambient_flags(
                encoded,
                plain,
            )[i]).len() > 0,
{
    broadcast use vstd::seq_lib::group_filter_ensures;

    let kept = |flag: Seq<u8>| flag.len() > 0;
    assert forall|flags: Seq<u8>, separator: u8, i: int|
        0 <= i < flags_in(flags, separator).len() implies (#[trigger] flags_in(
        flags,
        separator,
    )[i]).len() > 0 by {
        assert(kept(split(flags, separator).filter(kept)[i]));
    }
}

/// An option of the release profile is refused in either form, whatever precedes and follows it, as
/// long as no bare `-C` before it takes it, or its own `-C`, for something else.
pub proof fn law_profile_options_are_refused(
    before: Seq<Seq<u8>>,
    option: Seq<u8>,
    after: Seq<Seq<u8>>,
)
    requires
        owned_by_profile(option_name(option)),
        forall|i: int| 0 <= i < before.len() ==> #[trigger] before[i] != encode_utf8("-C"@),
    ensures
        codegen_outcome(before + seq![encode_utf8("-C"@), option] + after) is Err,
        forall|flag: Seq<u8>|
            attached_option(flag) == Some(option) && flag != encode_utf8("-C"@)
                ==> #[trigger] codegen_outcome(before + seq![flag] + after) is Err,
    decreases before.len(),
{
    let apart = before + seq![encode_utf8("-C"@), option] + after;
    if before.len() == 0 {
        assert(apart[0] == encode_utf8("-C"@));
        assert(apart[1] == option);
        assert forall|flag: Seq<u8>|
            attached_option(flag) == Some(option) && flag != encode_utf8(
                "-C"@,
            ) implies #[trigger] codegen_outcome(before + seq![flag] + after) is Err by {
            assert((before + seq![flag] + after)[0] == flag);
        }
    } else {
        law_profile_options_are_refused(before.skip(1), option, after);
        assert(apart[0] == before[0]);
        assert(apart.skip(1) == before.skip(1) + seq![encode_utf8("-C"@), option] + after);
        assert(codegen_outcome(apart.skip(1)) is Err);
        assert forall|flag: Seq<u8>|
            attached_option(flag) == Some(option) && flag != encode_utf8(
                "-C"@,
            ) implies #[trigger] codegen_outcome(before + seq![flag] + after) is Err by {
            let together = before + seq![flag] + after;
            assert(together[0] == before[0]);
            assert(together.skip(1) == before.skip(1) + seq![flag] + after);
            assert(codegen_outcome(before.skip(1) + seq![flag] + after) is Err);
        }
    }
}

/// Whether an option is this one, alone or with a value behind an `=`.
pub open spec fn is_option(option: Seq<u8>, name: Seq<char>) -> bool {
    option == encode_utf8(name) || encode_utf8(name).push('=' as u8).is_prefix_of(option)
}

/// Whether an option is one of those that the release profile sets.
pub open spec fn sets_the_profile(option: Seq<u8>) -> bool {
    ||| is_option(option, "opt-level"@)
    ||| is_option(option, "debug-assertions"@)
    ||| is_option(option, "overflow-checks"@)
    ||| is_option(option, "debuginfo"@)
    ||| is_option(option, "panic"@)
    ||| is_option(option, "strip"@)
    ||| is_option(option, "lto"@)
    ||| is_option(option, "codegen-units"@)
}

proof fn lemma_option(option: Seq<u8>, name: Seq<u8>)
    requires
        !name.contains('=' as u8),
    ensures
        option_name(option) == name <==> (option == name || name.push('=' as u8).is_prefix_of(
            option,
        )),
{
    let equals = '=' as u8;
    let n = first_index(option, equals);
    lemma_first_index_bounds(option, equals);
    if option == name {
        law_splits_at_every_separator(name, equals, Seq::empty());
    } else if name.push(equals).is_prefix_of(option) {
        let rest = option.skip(name.len() as int + 1);
        assert(option.subrange(0, name.len() as int + 1) == name.push(equals));
        assert(option == name.push(equals) + rest);
        law_splits_at_every_separator(name, equals, rest);
        assert((seq![name] + split(rest, equals))[0] == name);
    }
    if option_name(option) == name {
        if n < option.len() {
            assert(option.take(n) == name);
            assert(option.subrange(0, n + 1) == name.push(equals));
        } else {
            assert(option == name);
        }
    }
}

proof fn lemma_no_equals(name: Seq<char>)
    requires
        is_ascii_chars(name),
        !name.contains('='),
    ensures
        !encode_utf8(name).contains('=' as u8),
{
    is_ascii_chars_encode_utf8(name);
    let bytes = encode_utf8(name);
    assert forall|i: int| 0 <= i < bytes.len() implies bytes[i] != '=' as u8 by {
        assert(bytes[i] == name[i] as u8);
        assert(name[i] != '=');
    }
}

proof fn lemma_sets_the_profile(option: Seq<u8>)
    ensures
        owned_by_profile(option_name(option)) <==> sets_the_profile(option),
{
    reveal_strlit("opt-level");
    reveal_strlit("debug-assertions");
    reveal_strlit("overflow-checks");
    reveal_strlit("debuginfo");
    reveal_strlit("panic");
    reveal_strlit("strip");
    reveal_strlit("lto");
    reveal_strlit("codegen-units");
    lemma_no_equals("opt-level"@);
    lemma_no_equals("debug-assertions"@);
    lemma_no_equals("overflow-checks"@);
    lemma_no_equals("debuginfo"@);
    lemma_no_equals("panic"@);
    lemma_no_equals("strip"@);
    lemma_no_equals("lto"@);
    lemma_no_equals("codegen-units"@);
    lemma_option(option, encode_utf8("opt-level"@));
    lemma_option(option, encode_utf8("debug-assertions"@));
    lemma_option(option, encode_utf8("overflow-checks"@));
    lemma_option(option, encode_utf8("debuginfo"@));
    lemma_option(option, encode_utf8("panic"@));
    lemma_option(option, encode_utf8("strip"@));
    lemma_option(option, encode_utf8("lto"@));
    lemma_option(option, encode_utf8("codegen-units"@));
}

/// A bare `-C` takes the flag behind it for its option. The flags are then refused where that option is
/// one of the profile, or what follows is refused. A bare `-C` at the end, or no flag, is accepted.
pub proof fn law_options_behind_a_bare_flag_are_judged(option: Seq<u8>, behind: Seq<Seq<u8>>)
    ensures
        codegen_outcome(seq![encode_utf8("-C"@), option] + behind) is Err <==> sets_the_profile(
            option,
        ) || codegen_outcome(behind) is Err,
        codegen_outcome(seq![encode_utf8("-C"@)]) is Ok,
        codegen_outcome(Seq::<Seq<u8>>::empty()) is Ok,
{
    let flags = seq![encode_utf8("-C"@), option] + behind;
    assert(flags[0] == encode_utf8("-C"@) && flags[1] == option);
    assert(flags.skip(2) == behind);
    lemma_sets_the_profile(option);
}

/// A flag that is more than a bare `-C` is refused where it is `-C` or `-C=` with an option of the
/// profile; what follows it is judged on its own.
pub proof fn law_attached_options_are_judged(flag: Seq<u8>, behind: Seq<Seq<u8>>)
    requires
        flag != encode_utf8("-C"@),
    ensures
        codegen_outcome(seq![flag] + behind) is Err <==> codegen_outcome(behind) is Err || exists|
            option: Seq<u8>,
        |
            #[trigger] sets_the_profile(option) && (flag == encode_utf8("-C"@) + option || flag
                == encode_utf8("-C"@).push('=' as u8) + option),
{
    let flags = seq![flag] + behind;
    let head = encode_utf8("-C"@);
    let equals = encode_utf8("="@);
    assert(flags[0] == flag);
    assert(flags.skip(1) == behind);
    reveal_strlit("=");
    is_ascii_chars_encode_utf8("="@);
    assert(equals == seq!['=' as u8]);
    match attached_option(flag) {
        Some(option) => {
            lemma_sets_the_profile(option);
            let rest = flag.skip(head.len() as int);
            assert(flag == head + rest);
            if equals.is_prefix_of(rest) {
                assert(rest == equals + option);
                assert(flag == head.push('=' as u8) + option);
            }
            assert(sets_the_profile(option) ==> flag == head + option || flag == head.push(
                '=' as u8,
            ) + option);
        },
        None => {},
    }
    if exists|option: Seq<u8>|
        #[trigger] sets_the_profile(option) && (flag == head + option || flag == head.push(
            '=' as u8,
        ) + option) {
        let option = choose|option: Seq<u8>|
            #[trigger] sets_the_profile(option) && (flag == head + option || flag == head.push(
                '=' as u8,
            ) + option);
        lemma_sets_the_profile(option);
        lemma_profile_options_start_with_letters(option);
        if flag == head + option {
            assert(flag.subrange(0, head.len() as int) == head);
            assert(flag.skip(head.len() as int) == option);
            assert(!equals.is_prefix_of(option)) by {
                if equals.is_prefix_of(option) {
                    assert(option.subrange(0, 1)[0] == option[0]);
                }
            }
        } else {
            assert(flag.subrange(0, head.len() as int) == head);
            let rest = flag.skip(head.len() as int);
            assert(rest == equals + option);
            assert(rest.subrange(0, 1) == equals);
            assert(rest.skip(1) == option);
        }
    }
}

proof fn lemma_profile_options_start_with_letters(option: Seq<u8>)
    requires
        sets_the_profile(option),
    ensures
        option.len() > 0,
        option[0] != '=' as u8,
{
    lemma_starts_with_a_letter(option, "opt-level"@);
    lemma_starts_with_a_letter(option, "debug-assertions"@);
    lemma_starts_with_a_letter(option, "overflow-checks"@);
    lemma_starts_with_a_letter(option, "debuginfo"@);
    lemma_starts_with_a_letter(option, "panic"@);
    lemma_starts_with_a_letter(option, "strip"@);
    lemma_starts_with_a_letter(option, "lto"@);
    lemma_starts_with_a_letter(option, "codegen-units"@);
}

proof fn lemma_starts_with_a_letter(option: Seq<u8>, name: Seq<char>)
    requires
        name == "opt-level"@ || name == "debug-assertions"@ || name == "overflow-checks"@ || name
            == "debuginfo"@ || name == "panic"@ || name == "strip"@ || name == "lto"@ || name
            == "codegen-units"@,
    ensures
        is_option(option, name) ==> option.len() > 0 && option[0] != '=' as u8,
{
    reveal_strlit("opt-level");
    reveal_strlit("debug-assertions");
    reveal_strlit("overflow-checks");
    reveal_strlit("debuginfo");
    reveal_strlit("panic");
    reveal_strlit("strip");
    reveal_strlit("lto");
    reveal_strlit("codegen-units");
    is_ascii_chars_encode_utf8(name);
    let bytes = encode_utf8(name);
    assert(bytes[0] == name[0] as u8);
    if is_option(option, name) && option != bytes {
        assert(option.subrange(0, bytes.len() as int + 1)[0] == option[0]);
    }
}

/// The flags of the environment are what stands between separators, without what is empty: a unit
/// separator divides encoded flags, and a space plain ones.
pub proof fn law_ambient_flags_are_divided(before: Seq<u8>, behind: Seq<u8>, plain: Option<Seq<u8>>)
    ensures
        ambient_flags(Some(before.push(0x1f) + behind), plain) == ambient_flags(
            Some(before),
            plain,
        ) + ambient_flags(Some(behind), plain),
        ambient_flags(None, Some(before.push(0x20) + behind)) == ambient_flags(None, Some(before))
            + ambient_flags(None, Some(behind)),
        before.len() > 0 && !before.contains(0x1f) ==> ambient_flags(Some(before), plain) == seq![
            before,
        ],
        before.len() > 0 && !before.contains(0x20) ==> ambient_flags(None, Some(before)) == seq![
            before,
        ],
        ambient_flags(Some(Seq::empty()), plain) == Seq::<Seq<u8>>::empty(),
        ambient_flags(None, Some(Seq::empty())) == Seq::<Seq<u8>>::empty(),
        ambient_flags(None, None) == Seq::<Seq<u8>>::empty(),
{
    lemma_flags_divide(before, 0x1f, behind);
    lemma_flags_divide(before, 0x20, behind);
    lemma_flags_divide(Seq::empty(), 0x1f, behind);
    lemma_flags_divide(Seq::empty(), 0x20, behind);
}

proof fn lemma_flags_divide(before: Seq<u8>, separator: u8, behind: Seq<u8>)
    ensures
        flags_in(before.push(separator) + behind, separator) == flags_in(before, separator)
            + flags_in(behind, separator),
        !before.contains(separator) ==> flags_in(before, separator) == (if before.len() > 0 {
            seq![before]
        } else {
            Seq::empty()
        }),
{
    let kept = |flag: Seq<u8>| flag.len() > 0;
    law_splits_at_every_separator(before, separator, behind);
    Seq::filter_distributes_over_add(split(before, separator), split(behind, separator), kept);
    if !before.contains(separator) {
        reveal(Seq::filter);
        let one = seq![before];
        assert(one.drop_last() == Seq::<Seq<u8>>::empty());
        assert(one.drop_last().filter(kept) == Seq::<Seq<u8>>::empty());
        assert(one.filter(kept) == (if before.len() > 0 {
            seq![before]
        } else {
            Seq::<Seq<u8>>::empty()
        }));
    }
}

} // verus!
