//! The identity of a thin 64-bit Mach-O executable: its CPU, and the UUID that its linker gave it.

use vstd::prelude::*;
use vstd::slice::slice_subrange;

use crate::failure::{failure, outcome, Failure};
use crate::text::{hex, hex_text, join2, join5};

verus! {

/// The size of the header of a 64-bit Mach-O file.
pub const HEADER_SIZE: usize = 32;

/// The command that maps a segment of a 64-bit file.
pub const LC_SEGMENT_64: u32 = 0x19;

/// The command that holds the UUID.
pub const LC_UUID: u32 = 0x1b;

/// What tells one build of an executable from another.
#[derive(Debug)]
pub struct MachOIdentity {
    pub cpu_type: u32,
    pub cpu_subtype: u32,
    pub uuid: [u8; 16],
}

/// The model of a `MachOIdentity`.
pub struct Identity {
    pub cpu_type: nat,
    pub cpu_subtype: nat,
    pub uuid: Seq<u8>,
}

impl View for MachOIdentity {
    type V = Identity;

    open spec fn view(&self) -> Identity {
        Identity {
            cpu_type: self.cpu_type as nat,
            cpu_subtype: self.cpu_subtype as nat,
            uuid: self.uuid@,
        }
    }
}

/// The number that `bytes` stands for, its least significant byte first.
pub open spec fn little_endian(bytes: Seq<u8>) -> nat
    decreases bytes.len(),
{
    if bytes.len() == 0 {
        0
    } else {
        bytes[0] as nat + 256 * little_endian(bytes.skip(1))
    }
}

/// The 32-bit number at `offset`.
pub open spec fn u32_at(bytes: Seq<u8>, offset: int) -> nat {
    little_endian(bytes.subrange(offset, offset + 4))
}

/// The 64-bit number at `offset`.
pub open spec fn u64_at(bytes: Seq<u8>, offset: int) -> nat {
    little_endian(bytes.subrange(offset, offset + 8))
}

/// The 32-bit number at `offset`, where the file holds one there.
pub fn read_macho_u32(bytes: &[u8], offset: usize) -> (result: Result<u32, Failure>)
    requires
        offset + 4 <= usize::MAX,
    ensures
        match result {
            Ok(value) => offset + 4 <= bytes@.len() && value as nat == u32_at(
                bytes@,
                offset as int,
            ),
            Err(refusal) => offset + 4 > bytes@.len() && refusal@ == "truncated Mach-O integer"@,
        },
{
    if offset + 4 > bytes.len() {
        return Err(failure("truncated Mach-O integer"));
    }
    proof {
        reveal_with_fuel(little_endian, 5);
    }
    let value: u64 = bytes[offset] as u64 + 0x100 * (bytes[offset + 1] as u64) + 0x1_0000 * (
    bytes[offset + 2] as u64) + 0x100_0000 * (bytes[offset + 3] as u64);
    assert(value == u32_at(bytes@, offset as int)) by {
        let s = bytes@.subrange(offset as int, offset + 4);
        assert(s.skip(1).skip(1) == s.skip(2));
        assert(s.skip(2).skip(1) == s.skip(3));
    }
    Ok(value as u32)
}

/// The 64-bit number at `offset`, where the file holds one there.
pub fn read_macho_u64(bytes: &[u8], offset: usize) -> (result: Result<u64, Failure>)
    requires
        offset + 8 <= usize::MAX,
    ensures
        match result {
            Ok(value) => offset + 8 <= bytes@.len() && value as nat == u64_at(
                bytes@,
                offset as int,
            ),
            Err(refusal) => offset + 8 > bytes@.len() && refusal@ == "truncated Mach-O integer"@,
        },
{
    if offset + 8 > bytes.len() {
        return Err(failure("truncated Mach-O integer"));
    }
    let low = match read_macho_u32(bytes, offset) {
        Ok(low) => low,
        Err(refusal) => return Err(refusal),
    };
    let high = match read_macho_u32(bytes, offset + 4) {
        Ok(high) => high,
        Err(refusal) => return Err(refusal),
    };
    assert(low + 0x1_0000_0000 * high == u64_at(bytes@, offset as int)) by {
        reveal_with_fuel(little_endian, 9);
        let s = bytes@.subrange(offset as int, offset + 8);
        let l = bytes@.subrange(offset as int, offset + 4);
        let h = bytes@.subrange(offset + 4, offset + 8);
        assert(s.skip(1).skip(1).skip(1).skip(1) == h);
        assert(l.skip(1).skip(1).skip(1).skip(1) == Seq::<u8>::empty());
        assert(l[0] == s[0]);
        assert(l.skip(1)[0] == s.skip(1)[0]);
        assert(l.skip(1).skip(1)[0] == s.skip(1).skip(1)[0]);
        assert(l.skip(1).skip(1).skip(1)[0] == s.skip(1).skip(1).skip(1)[0]);
    }
    Ok(low as u64 + 0x1_0000_0000 * (high as u64))
}

/// Why the first four bytes of a file rule it out, if they do.
pub open spec fn magic_refusal(bytes: Seq<u8>) -> Option<Seq<char>> {
    let magic = bytes.take(4);
    if bytes.len() < 4 {
        Some("no supported Mach-O magic"@)
    } else if magic == seq![0xcfu8, 0xfau8, 0xedu8, 0xfeu8] {
        None
    } else if magic == seq![0xfeu8, 0xedu8, 0xfau8, 0xcfu8] {
        Some("byte-swapped Mach-O is unsupported"@)
    } else if is_fat_magic(magic) {
        Some("fat Mach-O is unsupported"@)
    } else if magic == seq![0xceu8, 0xfau8, 0xedu8, 0xfeu8] || magic == seq![
        0xfeu8,
        0xedu8,
        0xfau8,
        0xceu8,
    ] {
        Some("32-bit Mach-O is unsupported"@)
    } else {
        Some("no supported Mach-O magic"@)
    }
}

/// The four magic numbers of universal files, which hold code for several CPUs.
pub open spec fn is_fat_magic(magic: Seq<u8>) -> bool {
    ||| magic == seq![0xcau8, 0xfeu8, 0xbau8, 0xbeu8]
    ||| magic == seq![0xbeu8, 0xbau8, 0xfeu8, 0xcau8]
    ||| magic == seq![0xcau8, 0xfeu8, 0xbau8, 0xbfu8]
    ||| magic == seq![0xbfu8, 0xbau8, 0xfeu8, 0xcau8]
}

/// Whether the first four bytes are those given.
fn has_magic(bytes: &[u8], first: u8, second: u8, third: u8, fourth: u8) -> (r: bool)
    requires
        bytes@.len() >= 4,
    ensures
        r == (bytes@.take(4) == seq![first, second, third, fourth]),
{
    let r = bytes[0] == first && bytes[1] == second && bytes[2] == third && bytes[3] == fourth;
    proof {
        let magic = bytes@.take(4);
        assert(magic[0] == bytes@[0] && magic[1] == bytes@[1] && magic[2] == bytes@[2] && magic[3]
            == bytes@[3]);
        if r {
            assert(magic == seq![first, second, third, fourth]);
        }
    }
    r
}

/// Refuses a file by its first four bytes.
fn check_magic(bytes: &[u8]) -> (result: Result<(), Failure>)
    ensures
        outcome(result) == (match magic_refusal(bytes@) {
            Some(reason) => Err(reason),
            None => Ok(()),
        }),
{
    if bytes.len() < 4 {
        return Err(failure("no supported Mach-O magic"));
    }
    if has_magic(bytes, 0xcf, 0xfa, 0xed, 0xfe) {
        return Ok(());
    }
    if has_magic(bytes, 0xfe, 0xed, 0xfa, 0xcf) {
        return Err(failure("byte-swapped Mach-O is unsupported"));
    }
    if has_magic(bytes, 0xca, 0xfe, 0xba, 0xbe) || has_magic(bytes, 0xbe, 0xba, 0xfe, 0xca)
        || has_magic(bytes, 0xca, 0xfe, 0xba, 0xbf) || has_magic(bytes, 0xbf, 0xba, 0xfe, 0xca) {
        return Err(failure("fat Mach-O is unsupported"));
    }
    if has_magic(bytes, 0xce, 0xfa, 0xed, 0xfe) || has_magic(bytes, 0xfe, 0xed, 0xfa, 0xce) {
        return Err(failure("32-bit Mach-O is unsupported"));
    }
    Err(failure("no supported Mach-O magic"))
}

/// How far a file's load commands have been read.
pub struct Walk {
    /// Where the next command starts.
    pub offset: int,
    /// The UUID, once its command has been passed.
    pub uuid: Option<Seq<u8>>,
    /// The largest end of a segment passed so far.
    pub file_end: nat,
}

/// The larger of two numbers.
pub open spec fn larger(a: nat, b: nat) -> nat {
    if a >= b {
        a
    } else {
        b
    }
}

/// The walk beyond one more load command, in a command area that ends at `end`.
pub open spec fn step(bytes: Seq<u8>, end: int, walk: Walk) -> Result<Walk, Seq<char>> {
    let start = walk.offset;
    let kind = u32_at(bytes, start);
    let size = u32_at(bytes, start + 4);
    let segment_end = u64_at(bytes, start + 40) + u64_at(bytes, start + 48);
    if start + 8 > end {
        Err("truncated Mach-O load command header"@)
    } else if size < 8 {
        Err("invalid Mach-O load command size"@)
    } else if start + size > end {
        Err("truncated Mach-O load command"@)
    } else if kind == LC_SEGMENT_64 {
        if size < 72 {
            Err("invalid LC_SEGMENT_64 load command size"@)
        } else if segment_end > u64::MAX {
            Err("Mach-O segment file range overflows"@)
        } else {
            Ok(
                Walk {
                    offset: start + size,
                    uuid: walk.uuid,
                    file_end: larger(walk.file_end, segment_end),
                },
            )
        }
    } else if kind == LC_UUID {
        if size != 24 {
            Err("invalid LC_UUID load command size"@)
        } else if walk.uuid is Some {
            Err("duplicate LC_UUID load command"@)
        } else {
            Ok(
                Walk {
                    offset: start + size,
                    uuid: Some(bytes.subrange(start + 8, start + 24)),
                    file_end: walk.file_end,
                },
            )
        }
    } else {
        Ok(Walk { offset: start + size, uuid: walk.uuid, file_end: walk.file_end })
    }
}

/// The walk beyond `count` more load commands.
pub open spec fn steps(bytes: Seq<u8>, end: int, count: nat, walk: Walk) -> Result<Walk, Seq<char>>
    decreases count,
{
    if count == 0 {
        Ok(walk)
    } else {
        match step(bytes, end, walk) {
            Ok(next) => steps(bytes, end, (count - 1) as nat, next),
            Err(reason) => Err(reason),
        }
    }
}

/// The number of load commands that the header announces.
pub open spec fn command_count(bytes: Seq<u8>) -> nat {
    u32_at(bytes, 16)
}

/// Where the load commands end, as the header announces it.
pub open spec fn commands_end(bytes: Seq<u8>) -> int {
    HEADER_SIZE + u32_at(bytes, 20)
}

/// The walk before the first load command.
pub open spec fn first_walk() -> Walk {
    Walk { offset: HEADER_SIZE as int, uuid: None, file_end: 0 }
}

/// The identity of the executable with the contents `bytes`, or why it has none.
pub open spec fn identity(bytes: Seq<u8>) -> Result<Identity, Seq<char>> {
    if magic_refusal(bytes) is Some {
        Err(magic_refusal(bytes)->Some_0)
    } else if bytes.len() < HEADER_SIZE {
        Err("truncated Mach-O header"@)
    } else if commands_end(bytes) > bytes.len() {
        Err("truncated Mach-O load command area"@)
    } else {
        match steps(bytes, commands_end(bytes), command_count(bytes), first_walk()) {
            Err(reason) => Err(reason),
            Ok(walk) => if walk.offset != commands_end(bytes) {
                Err("Mach-O load command sizes do not match header"@)
            } else if walk.file_end > bytes.len() {
                Err("truncated Mach-O segment data"@)
            } else {
                match walk.uuid {
                    None => Err("Mach-O has no LC_UUID load command"@),
                    Some(uuid) => Ok(
                        Identity {
                            cpu_type: u32_at(bytes, 4),
                            cpu_subtype: u32_at(bytes, 8),
                            uuid,
                        },
                    ),
                }
            },
        }
    }
}

/// A result of `macho_identity` as `identity` gives it.
pub open spec fn identity_outcome(result: Result<MachOIdentity, Failure>) -> Result<
    Identity,
    Seq<char>,
> {
    match result {
        Ok(identity) => Ok(identity@),
        Err(refusal) => Err(refusal@),
    }
}

/// The UUID at `offset`.
fn uuid_at(bytes: &[u8], offset: usize) -> (uuid: [u8; 16])
    requires
        offset + 16 <= bytes@.len(),
    ensures
        uuid@ == bytes@.subrange(offset as int, offset + 16),
{
    let length = bytes.len();
    let mut uuid = [0u8;16];
    let mut i: usize = 0;
    while i < 16
        invariant
            i <= 16,
            offset + 16 <= length == bytes@.len(),
            forall|k: int| 0 <= k < i ==> uuid@[k] == bytes@[offset + k],
        decreases 16 - i,
    {
        uuid[i] = bytes[offset + i];
        i += 1;
    }
    assert(uuid@ == bytes@.subrange(offset as int, offset + 16));
    uuid
}

/// The identity of the executable with the contents `bytes`.
pub fn macho_identity(bytes: &[u8]) -> (result: Result<MachOIdentity, Failure>)
    ensures
        identity_outcome(result) == identity(bytes@),
{
    match check_magic(bytes) {
        Ok(()) => {},
        Err(refusal) => return Err(refusal),
    }
    if bytes.len() < HEADER_SIZE {
        return Err(failure("truncated Mach-O header"));
    }
    let cpu_type = read_macho_u32(bytes, 4)?;
    let cpu_subtype = read_macho_u32(bytes, 8)?;
    let count = read_macho_u32(bytes, 16)?;
    let command_bytes = read_macho_u32(bytes, 20)? as usize;
    if command_bytes > bytes.len() - HEADER_SIZE {
        return Err(failure("truncated Mach-O load command area"));
    }
    let end = HEADER_SIZE + command_bytes;
    let mut offset = HEADER_SIZE;
    let mut uuid: Option<[u8; 16]> = None;
    let mut file_end: u64 = 0;
    let mut i: u32 = 0;
    let ghost mut walk = first_walk();
    while i < count
        invariant
            i <= count,
            magic_refusal(bytes@) is None,
            HEADER_SIZE <= offset <= end <= bytes@.len(),
            end == commands_end(bytes@),
            count == command_count(bytes@),
            bytes@.len() <= usize::MAX,
            walk.offset == offset,
            walk.file_end == file_end,
            match uuid {
                Some(uuid) => walk.uuid == Some(uuid@),
                None => walk.uuid is None,
            },
            steps(bytes@, end as int, count as nat, first_walk()) == steps(
                bytes@,
                end as int,
                (count - i) as nat,
                walk,
            ),
        decreases count - i,
    {
        if end - offset < 8 {
            return Err(failure("truncated Mach-O load command header"));
        }
        let kind = read_macho_u32(bytes, offset)?;
        let size = read_macho_u32(bytes, offset + 4)? as usize;
        if size < 8 {
            return Err(failure("invalid Mach-O load command size"));
        }
        if size > end - offset {
            return Err(failure("truncated Mach-O load command"));
        }
        if kind == LC_SEGMENT_64 {
            if size < 72 {
                return Err(failure("invalid LC_SEGMENT_64 load command size"));
            }
            let file_offset = read_macho_u64(bytes, offset + 40)?;
            let file_size = read_macho_u64(bytes, offset + 48)?;
            match file_offset.checked_add(file_size) {
                None => {
                    return Err(failure("Mach-O segment file range overflows"));
                },
                Some(segment_end) => {
                    if segment_end > file_end {
                        file_end = segment_end;
                    }
                },
            }
        }
        if kind == LC_UUID {
            if size != 24 {
                return Err(failure("invalid LC_UUID load command size"));
            }
            if uuid.is_some() {
                return Err(failure("duplicate LC_UUID load command"));
            }
            uuid = Some(uuid_at(bytes, offset + 8));
        }
        proof {
            walk = step(bytes@, end as int, walk)->Ok_0;
        }
        offset += size;
        i += 1;
    }
    if offset != end {
        return Err(failure("Mach-O load command sizes do not match header"));
    }
    if file_end > bytes.len() as u64 {
        return Err(failure("truncated Mach-O segment data"));
    }
    match uuid {
        None => Err(failure("Mach-O has no LC_UUID load command")),
        Some(uuid) => Ok(MachOIdentity { cpu_type, cpu_subtype, uuid }),
    }
}

/// The UUID in its usual form: digits of base sixteen in five groups.
pub open spec fn uuid_text(uuid: Seq<u8>) -> Seq<char> {
    hex(uuid.subrange(0, 4), true) + "-"@ + hex(uuid.subrange(4, 6), true) + "-"@ + hex(
        uuid.subrange(6, 8),
        true,
    ) + "-"@ + hex(uuid.subrange(8, 10), true) + "-"@ + hex(uuid.subrange(10, 16), true)
}

/// The UUID in its usual form.
pub fn format_uuid(uuid: &[u8; 16]) -> (text: String)
    ensures
        text@ == uuid_text(uuid@),
{
    let bytes = uuid.as_slice();
    let first = hex_text(slice_subrange(bytes, 0, 4), true);
    let second = hex_text(slice_subrange(bytes, 4, 6), true);
    let third = hex_text(slice_subrange(bytes, 6, 8), true);
    let fourth = hex_text(slice_subrange(bytes, 8, 10), true);
    let fifth = hex_text(slice_subrange(bytes, 10, 16), true);
    let head = join5(first.as_str(), "-", second.as_str(), "-", third.as_str());
    join5(head.as_str(), "-", fourth.as_str(), "-", fifth.as_str())
}

/// The four bytes of `n`, the most significant one first.
pub open spec fn big_endian(n: u32) -> Seq<u8> {
    seq![(n / 0x100_0000) as u8, (n / 0x1_0000 % 256) as u8, (n / 256 % 256) as u8, (n % 256) as u8]
}

/// `n` as `0x` and eight digits of base sixteen.
pub open spec fn hex_word(n: u32) -> Seq<char> {
    "0x"@ + hex(big_endian(n), true)
}

/// `n` as `0x` and eight digits of base sixteen.
pub fn hex_word_text(n: u32) -> (text: String)
    ensures
        text@ == hex_word(n),
{
    let bytes = [
        (n / 0x100_0000) as u8,
        (n / 0x1_0000 % 256) as u8,
        (n / 256 % 256) as u8,
        (n % 256) as u8,
    ];
    assert(bytes@ == big_endian(n));
    join2("0x", hex_text(bytes.as_slice(), true).as_str())
}

/// The name of a CPU type: that of the two that are built for, else its number.
pub open spec fn cpu_name(cpu_type: u32) -> Seq<char> {
    if cpu_type == 0x0100_000c {
        "arm64"@
    } else if cpu_type == 0x0100_0007 {
        "x86_64"@
    } else {
        hex_word(cpu_type)
    }
}

/// The name of a CPU type.
pub fn cpu_type_name(cpu_type: u32) -> (name: String)
    ensures
        name@ == cpu_name(cpu_type),
{
    if cpu_type == 0x0100_000c {
        "arm64".to_string()
    } else if cpu_type == 0x0100_0007 {
        "x86_64".to_string()
    } else {
        hex_word_text(cpu_type)
    }
}

/// Whether `starts` are the places of the load commands: as many as the header announces, each
/// where the one before it ends, the last entry being the end of the command area.
pub open spec fn command_places(bytes: Seq<u8>, starts: Seq<int>) -> bool {
    &&& starts.len() == command_count(bytes) + 1
    &&& starts[0] == HEADER_SIZE
    &&& starts.last() == commands_end(bytes)
    &&& forall|i: int|
        0 <= i < starts.len() - 1 ==> {
            &&& #[trigger] u32_at(bytes, starts[i] + 4) >= 8
            &&& starts[i + 1] == starts[i] + u32_at(bytes, starts[i] + 4)
        }
}

/// Whether the command at `start`, if it maps a segment, maps bytes that the file holds.
pub open spec fn segment_in_file(bytes: Seq<u8>, start: int) -> bool {
    u32_at(bytes, start) == LC_SEGMENT_64 ==> u32_at(bytes, start + 4) >= 72 && u64_at(
        bytes,
        start + 40,
    ) + u64_at(bytes, start + 48) <= bytes.len()
}

/// Whether command number `i`, and no other one, holds the UUID, in the size that it has.
pub open spec fn only_uuid_command(bytes: Seq<u8>, starts: Seq<int>, i: int) -> bool {
    &&& 0 <= i < starts.len() - 1
    &&& u32_at(bytes, starts[i]) == LC_UUID
    &&& u32_at(bytes, starts[i] + 4) == 24
    &&& forall|j: int|
        0 <= j < starts.len() - 1 && j != i ==> #[trigger] u32_at(bytes, starts[j]) != LC_UUID
}

/// Whether `bytes` is a thin little-endian 64-bit file whose load commands, at `starts`, fill the
/// announced area, whose segments lie in it, and whose UUID is in command number `i`.
pub open spec fn well_formed_with(bytes: Seq<u8>, starts: Seq<int>, i: int) -> bool {
    &&& bytes.len() >= HEADER_SIZE
    &&& bytes.take(4) == seq![0xcfu8, 0xfau8, 0xedu8, 0xfeu8]
    &&& commands_end(bytes) <= bytes.len()
    &&& command_places(bytes, starts)
    &&& forall|j: int| 0 <= j < starts.len() - 1 ==> segment_in_file(bytes, #[trigger] starts[j])
    &&& only_uuid_command(bytes, starts, i)
}

/// The places that `count` steps from `walk` pass.
pub open spec fn places(bytes: Seq<u8>, end: int, count: nat, walk: Walk) -> Seq<int>
    decreases count,
{
    if count == 0 {
        seq![walk.offset]
    } else {
        seq![walk.offset] + places(
            bytes,
            end,
            (count - 1) as nat,
            step(bytes, end, walk)->Ok_0,
        )
    }
}

/// What a successful walk says of the places that it passed.
proof fn lemma_steps_places(bytes: Seq<u8>, end: int, count: nat, walk: Walk)
    requires
        steps(bytes, end, count, walk) is Ok,
        walk.offset >= 0,
    ensures
        ({
            let starts = places(bytes, end, count, walk);
            let last = steps(bytes, end, count, walk)->Ok_0;
            &&& starts.len() == count + 1
            &&& starts[0] == walk.offset
            &&& starts.last() == last.offset
            &&& last.file_end >= walk.file_end
            &&& forall|i: int|
                0 <= i < count ==> {
                    &&& #[trigger] u32_at(bytes, starts[i] + 4) >= 8
                    &&& starts[i + 1] == starts[i] + u32_at(bytes, starts[i] + 4)
                }
            &&& forall|i: int|
                0 <= i < count && u32_at(bytes, #[trigger] starts[i]) == LC_SEGMENT_64 ==> {
                    &&& u32_at(bytes, starts[i] + 4) >= 72
                    &&& u64_at(bytes, starts[i] + 40) + u64_at(bytes, starts[i] + 48)
                        <= last.file_end
                }
            &&& walk.uuid is Some ==> last.uuid == walk.uuid && forall|i: int|
                0 <= i < count ==> u32_at(bytes, #[trigger] starts[i]) != LC_UUID
            &&& walk.uuid is None && last.uuid is None ==> forall|i: int|
                0 <= i < count ==> u32_at(bytes, #[trigger] starts[i]) != LC_UUID
            &&& walk.uuid is None && last.uuid is Some ==> exists|i: int|
                #[trigger] only_uuid_command(bytes, starts, i) && last.uuid == Some(
                    bytes.subrange(starts[i] + 8, starts[i] + 24),
                )
        }),
    decreases count,
{
    if count > 0 {
        let next = step(bytes, end, walk)->Ok_0;
        let rest = places(bytes, end, (count - 1) as nat, next);
        let starts = places(bytes, end, count, walk);
        let last = steps(bytes, end, count, walk)->Ok_0;
        lemma_steps_places(bytes, end, (count - 1) as nat, next);
        assert(starts == seq![walk.offset] + rest);
        assert forall|i: int| 0 <= i < count implies {
            &&& #[trigger] u32_at(bytes, starts[i] + 4) >= 8
            &&& starts[i + 1] == starts[i] + u32_at(bytes, starts[i] + 4)
        } by {
            if i > 0 {
                assert(starts[i] == rest[i - 1]);
                assert(u32_at(bytes, rest[i - 1] + 4) >= 8);
            }
        }
        assert forall|i: int|
            0 <= i < count && u32_at(bytes, #[trigger] starts[i]) == LC_SEGMENT_64 implies {
            &&& u32_at(bytes, starts[i] + 4) >= 72
            &&& u64_at(bytes, starts[i] + 40) + u64_at(bytes, starts[i] + 48) <= last.file_end
        } by {
            if i > 0 {
                assert(starts[i] == rest[i - 1]);
            }
        }
        if next.uuid is Some || last.uuid is None {
            assert forall|i: int| 1 <= i < count implies u32_at(bytes, #[trigger] starts[i])
                != LC_UUID by {
                assert(starts[i] == rest[i - 1]);
            }
            if walk.uuid is None && last.uuid is Some {
                assert forall|j: int| 0 <= j < starts.len() - 1 && j != 0 implies #[trigger] u32_at(
                    bytes,
                    starts[j],
                ) != LC_UUID by {
                    assert(starts[j] == rest[j - 1]);
                }
                assert(only_uuid_command(bytes, starts, 0));
            }
        } else {
            let k = choose|k: int| #[trigger]
                only_uuid_command(bytes, rest, k) && last.uuid == Some(
                    bytes.subrange(rest[k] + 8, rest[k] + 24),
                );
            assert(starts[k + 1] == rest[k]);
            assert forall|j: int| 0 <= j < starts.len() - 1 && j != k + 1 implies #[trigger] u32_at(
                bytes,
                starts[j],
            ) != LC_UUID by {
                if j > 0 {
                    assert(starts[j] == rest[j - 1]);
                }
            }
            assert(only_uuid_command(bytes, starts, k + 1));
        }
    }
}

/// A walk over well-placed commands succeeds, with the UUID of its one UUID command.
proof fn lemma_places_steps(bytes: Seq<u8>, starts: Seq<int>, i: int, at: int, walk: Walk)
    requires
        bytes.len() <= u64::MAX,
        well_formed_with(bytes, starts, i),
        0 <= at < starts.len(),
        walk.offset == starts[at],
        walk.file_end <= bytes.len(),
        i < at <==> walk.uuid is Some,
    ensures
        steps(bytes, commands_end(bytes), (starts.len() - 1 - at) as nat, walk) is Ok,
        ({
            let last = steps(
                bytes,
                commands_end(bytes),
                (starts.len() - 1 - at) as nat,
                walk,
            )->Ok_0;
            &&& last.offset == commands_end(bytes)
            &&& last.file_end <= bytes.len()
            &&& last.uuid == (if i < at {
                walk.uuid
            } else {
                Some(bytes.subrange(starts[i] + 8, starts[i] + 24))
            })
        }),
    decreases starts.len() - at,
{
    if at < starts.len() - 1 {
        let end = commands_end(bytes);
        lemma_places_grow(bytes, starts, at + 1, starts.len() - 1);
        assert(u32_at(bytes, starts[at] + 4) >= 8);
        assert(segment_in_file(bytes, starts[at]));
        assert(at != i ==> u32_at(bytes, starts[at]) != LC_UUID);
        let next = step(bytes, end, walk)->Ok_0;
        assert(step(bytes, end, walk) is Ok);
        lemma_places_steps(bytes, starts, i, at + 1, next);
    }
}

/// The places of load commands increase.
proof fn lemma_places_grow(bytes: Seq<u8>, starts: Seq<int>, from: int, to: int)
    requires
        command_places(bytes, starts),
        0 <= from <= to < starts.len(),
    ensures
        starts[from] <= starts[to],
    decreases to - from,
{
    if from < to {
        lemma_places_grow(bytes, starts, from, to - 1);
        assert(u32_at(bytes, starts[to - 1] + 4) >= 8);
    }
}

/// An identity is given to the well-formed files, and to no others: it is the CPU of the header and
/// the UUID of the file's one UUID command.
pub proof fn law_identity_of_well_formed_files(bytes: Seq<u8>)
    requires
        bytes.len() <= u64::MAX,
    ensures
        identity(bytes) is Ok <==> exists|starts: Seq<int>, i: int|
            well_formed_with(bytes, starts, i),
        forall|starts: Seq<int>, i: int| #[trigger]
            well_formed_with(bytes, starts, i) ==> identity(bytes) == Ok::<Identity, Seq<char>>(
                Identity {
                    cpu_type: u32_at(bytes, 4),
                    cpu_subtype: u32_at(bytes, 8),
                    uuid: bytes.subrange(starts[i] + 8, starts[i] + 24),
                },
            ),
{
    let end = commands_end(bytes);
    let count = command_count(bytes);
    if identity(bytes) is Ok {
        lemma_steps_places(bytes, end, count, first_walk());
        let starts = places(bytes, end, count, first_walk());
        let last = steps(bytes, end, count, first_walk())->Ok_0;
        let i = choose|i: int| #[trigger]
            only_uuid_command(bytes, starts, i) && last.uuid == Some(
                bytes.subrange(starts[i] + 8, starts[i] + 24),
            );
        assert(command_places(bytes, starts));
        assert(well_formed_with(bytes, starts, i));
    }
    assert forall|starts: Seq<int>, i: int| #[trigger]
        well_formed_with(bytes, starts, i) implies identity(bytes) == Ok::<Identity, Seq<char>>(
        Identity {
            cpu_type: u32_at(bytes, 4),
            cpu_subtype: u32_at(bytes, 8),
            uuid: bytes.subrange(starts[i] + 8, starts[i] + 24),
        },
    ) by {
        lemma_places_steps(bytes, starts, i, 0, first_walk());
    }
}

/// A universal file is refused, whatever it holds after its magic number.
pub proof fn law_universal_files_are_refused(bytes: Seq<u8>)
    requires
        bytes.len() >= 4,
        is_fat_magic(bytes.take(4)),
    ensures
        identity(bytes) == Err::<Identity, Seq<char>>("fat Mach-O is unsupported"@),
{
    let magic = bytes.take(4);
    let thin = seq![0xcfu8, 0xfau8, 0xedu8, 0xfeu8];
    let swapped = seq![0xfeu8, 0xedu8, 0xfau8, 0xcfu8];
    assert(magic[0] != 0xcf && magic[0] != 0xfe);
    assert(thin[0] == 0xcf && swapped[0] == 0xfe);
}

/// Numbers are read with their least significant byte first.
pub proof fn law_numbers_are_little_endian(bytes: Seq<u8>, offset: int)
    requires
        0 <= offset,
        offset + 8 <= bytes.len(),
    ensures
        u32_at(bytes, offset) == bytes[offset] + 0x100 * bytes[offset + 1] + 0x1_0000 * bytes[offset
            + 2] + 0x100_0000 * bytes[offset + 3],
        u64_at(bytes, offset) == u32_at(bytes, offset) + 0x1_0000_0000 * u32_at(bytes, offset + 4),
{
    reveal_with_fuel(little_endian, 9);
    let a = bytes.subrange(offset, offset + 4);
    let b = bytes.subrange(offset + 4, offset + 8);
    let c = bytes.subrange(offset, offset + 8);
    assert(a.skip(1).skip(1) == a.skip(2));
    assert(a.skip(2).skip(1) == a.skip(3));
    assert(b.skip(1).skip(1) == b.skip(2));
    assert(b.skip(2).skip(1) == b.skip(3));
    assert(c.skip(1).skip(1) == c.skip(2));
    assert(c.skip(2).skip(1) == c.skip(3));
    assert(c.skip(3).skip(1) == c.skip(4));
    assert(c.skip(4) == b);
}

/// Whether a load command at `start`, of the given size, is what a thin file can hold: one for a segment
/// has 72 bytes or more and maps bytes of the file, and the one for the UUID has 24.
pub open spec fn is_sound_command(bytes: Seq<u8>, start: int) -> bool {
    let kind = u32_at(bytes, start);
    let size = u32_at(bytes, start + 4);
    &&& size >= 8
    &&& kind == 25 ==> size >= 72 && u64_at(bytes, start + 40) + u64_at(bytes, start + 48)
        <= bytes.len()
    &&& kind == 27 ==> size == 24
}

/// Whether command number `k` is sound, and the next one follows it.
pub open spec fn is_in_its_place(bytes: Seq<u8>, starts: Seq<int>, k: int) -> bool {
    is_sound_command(bytes, starts[k]) && starts[k + 1] == starts[k] + u32_at(bytes, starts[k] + 4)
}

/// A file with an identity starts with the magic number of thin little-endian 64-bit files. Its
/// commands, as many as the header says at byte 16, follow each other from byte 32 on and fill just as
/// many bytes as the header says at byte 20. Each is sound, and exactly one, of kind 27, holds the
/// UUID.
pub proof fn law_files_with_an_identity(bytes: Seq<u8>) -> (r: (Seq<int>, int))
    requires
        bytes.len() <= u64::MAX,
        identity(bytes) is Ok,
    ensures
        bytes.len() >= 32,
        bytes[0] == 0xcf && bytes[1] == 0xfa && bytes[2] == 0xed && bytes[3] == 0xfe,
        32 + u32_at(bytes, 20) <= bytes.len(),
        r.0.len() == u32_at(bytes, 16) + 1,
        r.0[0] == 32,
        r.0.last() == 32 + u32_at(bytes, 20),
        forall|k: int|
            0 <= k < r.0.len() - 1 ==> #[trigger] is_in_its_place(bytes, r.0, k),
        0 <= r.1 < r.0.len() - 1,
        forall|k: int|
            0 <= k < r.0.len() - 1 ==> (u32_at(bytes, #[trigger] r.0[k]) == 27 <==> k == r.1),
        identity(bytes)->Ok_0.uuid == bytes.subrange(r.0[r.1] + 8, r.0[r.1] + 24),
        identity(bytes)->Ok_0.cpu_type == u32_at(bytes, 4),
        identity(bytes)->Ok_0.cpu_subtype == u32_at(bytes, 8),
{
    law_identity_of_well_formed_files(bytes);
    let (starts, i) = choose|starts: Seq<int>, i: int| well_formed_with(bytes, starts, i);
    let magic = bytes.take(4);
    let thin = seq![0xcfu8, 0xfau8, 0xedu8, 0xfeu8];
    assert(magic[0] == thin[0] && magic[1] == thin[1] && magic[2] == thin[2] && magic[3] == thin[3]);
    assert forall|k: int| 0 <= k < starts.len() - 1 implies #[trigger] is_in_its_place(
        bytes,
        starts,
        k,
    ) by {
        assert(u32_at(bytes, starts[k] + 4) >= 8);
        assert(segment_in_file(bytes, starts[k]));
        if k != i {
            assert(u32_at(bytes, starts[k]) != LC_UUID);
        }
    }
    (starts, i)
}

/// A file whose commands are placed so and are sound, with exactly one UUID, has an identity.
pub proof fn law_sound_files_have_an_identity(bytes: Seq<u8>, starts: Seq<int>, i: int)
    requires
        32 <= bytes.len() <= u64::MAX,
        bytes[0] == 0xcf && bytes[1] == 0xfa && bytes[2] == 0xed && bytes[3] == 0xfe,
        32 + u32_at(bytes, 20) <= bytes.len(),
        starts.len() == u32_at(bytes, 16) + 1,
        starts[0] == 32,
        starts.last() == 32 + u32_at(bytes, 20),
        forall|k: int|
            0 <= k < starts.len() - 1 ==> #[trigger] is_in_its_place(bytes, starts, k),
        0 <= i < starts.len() - 1,
        forall|k: int|
            0 <= k < starts.len() - 1 ==> (u32_at(bytes, #[trigger] starts[k]) == 27 <==> k == i),
    ensures
        identity(bytes) == Ok::<Identity, Seq<char>>(
            Identity {
                cpu_type: u32_at(bytes, 4),
                cpu_subtype: u32_at(bytes, 8),
                uuid: bytes.subrange(starts[i] + 8, starts[i] + 24),
            },
        ),
{
    law_identity_of_well_formed_files(bytes);
    assert(bytes.take(4) =~= seq![0xcfu8, 0xfau8, 0xedu8, 0xfeu8]);
    assert forall|j: int| 0 <= j < starts.len() - 1 implies {
        &&& #[trigger] u32_at(bytes, starts[j] + 4) >= 8
        &&& starts[j + 1] == starts[j] + u32_at(bytes, starts[j] + 4)
    } by {
        assert(is_in_its_place(bytes, starts, j));
    }
    assert forall|j: int| 0 <= j < starts.len() - 1 implies segment_in_file(
        bytes,
        #[trigger] starts[j],
    ) by {
        assert(is_in_its_place(bytes, starts, j));
    }
    assert(is_in_its_place(bytes, starts, i));
    assert forall|j: int| 0 <= j < starts.len() - 1 && j != i implies #[trigger] u32_at(
        bytes,
        starts[j],
    ) != LC_UUID by {
        assert(u32_at(bytes, starts[j]) != 27);
    }
    assert(only_uuid_command(bytes, starts, i));
    assert(command_places(bytes, starts));
    assert(well_formed_with(bytes, starts, i));
}

/// A UUID is written as its sixteen bytes in order, with dashes behind the fourth, the sixth, the eighth
/// and the tenth; a number as its four bytes, the most significant first.
pub proof fn law_uuids_and_numbers_as_text(uuid: Seq<u8>, n: u32)
    requires
        uuid.len() == 16,
    ensures
        uuid_text(uuid) == hex(uuid.take(4), true) + "-"@ + hex(uuid.subrange(4, 6), true) + "-"@
            + hex(uuid.subrange(6, 8), true) + "-"@ + hex(uuid.subrange(8, 10), true) + "-"@ + hex(
            uuid.skip(10),
            true,
        ),
        exists|bytes: Seq<u8>|
            bytes.len() == 4 && n == 0x100_0000 * bytes[0] + 0x1_0000 * bytes[1] + 0x100 * bytes[2]
                + bytes[3] && hex_word(n) == "0x"@ + #[trigger] hex(bytes, true),
        cpu_name(16777228) == "arm64"@,
        cpu_name(16777223) == "x86_64"@,
        n != 16777228 && n != 16777223 ==> cpu_name(n) == hex_word(n),
{
    assert(uuid.take(4) =~= uuid.subrange(0, 4));
    assert(uuid.skip(10) =~= uuid.subrange(10, 16));
    let bytes = big_endian(n);
    assert(bytes.len() == 4);
    assert(n == 0x100_0000 * (n / 0x100_0000) + 0x1_0000 * (n / 0x1_0000 % 256) + 0x100 * (n / 256
        % 256) + n % 256);
    assert(hex_word(n) == "0x"@ + hex(bytes, true));
}

/// Files that start with any other magic number are refused, and the kinds that are known are told apart:
/// those for CPUs with the other byte order, and those for CPUs of 32 bits of either order.
pub proof fn law_other_files_are_refused(bytes: Seq<u8>)
    requires
        bytes.len() >= 4,
    ensures
        identity(bytes) is Ok ==> bytes[0] == 0xcf && bytes[1] == 0xfa && bytes[2] == 0xed && bytes[3]
            == 0xfe,
        bytes[0] == 0xfe && bytes[1] == 0xed && bytes[2] == 0xfa && bytes[3] == 0xcf ==> identity(
            bytes,
        ) == Err::<Identity, Seq<char>>("byte-swapped Mach-O is unsupported"@),
        bytes[0] == 0xce && bytes[1] == 0xfa && bytes[2] == 0xed && bytes[3] == 0xfe ==> identity(
            bytes,
        ) == Err::<Identity, Seq<char>>("32-bit Mach-O is unsupported"@),
        bytes[0] == 0xfe && bytes[1] == 0xed && bytes[2] == 0xfa && bytes[3] == 0xce ==> identity(
            bytes,
        ) == Err::<Identity, Seq<char>>("32-bit Mach-O is unsupported"@),
{
    let magic = bytes.take(4);
    assert(magic[0] == bytes[0] && magic[1] == bytes[1] && magic[2] == bytes[2] && magic[3]
        == bytes[3]);
    let thin = seq![0xcfu8, 0xfau8, 0xedu8, 0xfeu8];
    let swapped = seq![0xfeu8, 0xedu8, 0xfau8, 0xcfu8];
    let small = seq![0xceu8, 0xfau8, 0xedu8, 0xfeu8];
    let small_swapped = seq![0xfeu8, 0xedu8, 0xfau8, 0xceu8];
    assert(thin[0] == 0xcf && thin[1] == 0xfa && thin[2] == 0xed && thin[3] == 0xfe);
    assert(swapped[0] == 0xfe && swapped[3] == 0xcf);
    if bytes[0] == 0xfe && bytes[1] == 0xed && bytes[2] == 0xfa && bytes[3] == 0xcf {
        assert(magic =~= swapped);
    }
    let fat = seq![0xcau8, 0xfeu8, 0xbau8, 0xbeu8];
    let fat_swapped = seq![0xbeu8, 0xbau8, 0xfeu8, 0xcau8];
    let fat_64 = seq![0xcau8, 0xfeu8, 0xbau8, 0xbfu8];
    let fat_64_swapped = seq![0xbfu8, 0xbau8, 0xfeu8, 0xcau8];
    assert(fat[0] == 0xca && fat_swapped[0] == 0xbe && fat_64[0] == 0xca && fat_64_swapped[0] == 0xbf);
    if bytes[0] == 0xce && bytes[1] == 0xfa && bytes[2] == 0xed && bytes[3] == 0xfe {
        assert(magic =~= small);
    }
    if bytes[0] == 0xfe && bytes[1] == 0xed && bytes[2] == 0xfa && bytes[3] == 0xce {
        assert(magic =~= small_swapped);
    }
}

} // verus!
