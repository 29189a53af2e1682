//! The memory tile: available and total memory, from `/proc/meminfo`.
use vstd::prelude::*;

use crate::text::{
    chars_of, decimal, parse_decimal, parse_unsigned, pieces, split_on,
    split_words, string_of, words,
};
use crate::tile::Block;
use crate::tiles::TileError;

verus! {

broadcast use vstd::string::group_string_axioms;

/// How far a count of KiB is shifted right, and the letter of the unit that
/// the shifted count is in: each unit is 1024 times the one before.
pub open spec fn kib_unit(kib: u64) -> (u64, char) {
    if kib <= 0x3ff {
        (0, 'k')
    } else if kib <= 0xfffff {
        (10, 'M')
    } else if kib <= 0x3fffffff {
        (20, 'G')
    } else if kib <= 0xffffffffff {
        (30, 'T')
    } else if kib <= 0x3ffffffffffff {
        (40, 'P')
    } else if kib <= 0xfffffffffffffff {
        (50, 'E')
    } else {
        (60, 'Z')
    }
}

/// `kib` KiB in the largest unit that leaves at least 1, rounded down, such as
/// `"15 MiB"`.
pub open spec fn pretty_kib(kib: u64) -> Seq<char> {
    let (shift, unit) = kib_unit(kib);
    decimal((kib >> shift) as nat) + seq![' ', unit, 'i', 'B']
}

/// `kib` KiB written for a person to read, such as `"15 MiB"`.
pub fn prettify_kib(kib: u64) -> (s: String)
    ensures
        s@ == pretty_kib(kib),
        exists|n: int| shows_kib_in_unit(s@, kib as nat, n),
{
    proof {
        lemma_pretty_kib_unit(kib);
    }
    let (mem, unit): (u64, char) = if kib <= 0x3ff {
        (kib, 'k')
    } else if kib <= 0xfffff {
        (kib >> 10u64, 'M')
    } else if kib <= 0x3fffffff {
        (kib >> 20u64, 'G')
    } else if kib <= 0xffffffffff {
        (kib >> 30u64, 'T')
    } else if kib <= 0x3ffffffffffff {
        (kib >> 40u64, 'P')
    } else if kib <= 0xfffffffffffffff {
        (kib >> 50u64, 'E')
    } else {
        (kib >> 60u64, 'Z')
    };
    assert(kib >> 0u64 == kib) by (bit_vector);
    let mut v: Vec<char> = Vec::new();
    crate::text::push_decimal(mem, &mut v);
    v.push(' ');
    v.push(unit);
    v.push('i');
    v.push('B');
    assert(v@ =~= pretty_kib(kib));
    string_of(v.as_slice())
}

/// The number in the second field of a line of `/proc/meminfo`
/// (`"MemTotal:  16314452 kB"` holds 16314452).
pub open spec fn field_value(line: Seq<char>) -> Result<nat, TileError> {
    let ws = words(line);
    if ws.len() < 2 {
        Err(TileError::InvalidData)
    } else {
        match parse_unsigned(ws[1], u64::MAX as nat) {
            Ok(v) => Ok(v),
            Err(e) => Err(TileError::ParseInt(e)),
        }
    }
}

/// The number in the second field of `line`.
pub fn extract_value(line: &str) -> (r: Result<u64, TileError>)
    ensures
        match field_value(line@) {
            Ok(v) => r == Ok::<u64, TileError>(v as u64),
            Err(e) => r == Err::<u64, TileError>(e),
        },
{
    let cs = chars_of(line);
    let ws = split_words(cs.as_slice());
    if ws.len() < 2 {
        return Err(TileError::InvalidData);
    }
    match parse_decimal(ws[1].as_slice(), u64::MAX) {
        Ok(v) => Ok(v),
        Err(e) => Err(TileError::ParseInt(e)),
    }
}

/// What the memory tile reads from the text of `/proc/meminfo`: the total
/// memory on the first line and the available memory on the third, in KiB.
pub open spec fn meminfo(text: Seq<char>) -> Result<(u64, u64), TileError> {
    let lines = pieces(text, '\n');
    match field_value(lines[0]) {
        Err(e) => Err(e),
        Ok(total) => if lines.len() < 3 {
            Err(TileError::InvalidData)
        } else {
            match field_value(lines[2]) {
                Err(e) => Err(e),
                Ok(avail) => Ok((avail as u64, total as u64)),
            }
        },
    }
}

/// The text of the memory block for `avail` of `total` KiB.
pub open spec fn memory_full_text(avail: u64, total: u64) -> Seq<char> {
    pretty_kib(avail) + " avail / "@ + pretty_kib(total)
}

/// The short text of the memory block for `avail` of `total` KiB.
pub open spec fn memory_short_text(avail: u64, total: u64) -> Seq<char> {
    pretty_kib(avail) + " / "@ + pretty_kib(total)
}

proof fn lemma_pieces_nonempty(s: Seq<char>, sep: char, cur: Seq<char>)
    ensures
        crate::text::pieces_from(s, sep, cur).len() >= 1,
    decreases s.len(),
{
    if s.len() > 0 {
        if s[0] == sep {
            lemma_pieces_nonempty(s.drop_first(), sep, seq![]);
        } else {
            lemma_pieces_nonempty(s.drop_first(), sep, cur.push(s[0]));
        }
    }
}

/// The memory block for the text of `/proc/meminfo`.
pub fn memory_block_from_text(text: &str) -> (r: Result<Block, TileError>)
    ensures
        match meminfo(text@) {
            Ok((avail, total)) => r matches Ok(b) && b.shows(
                memory_full_text(avail, total),
                Some(memory_short_text(avail, total)),
                "memory"@,
            ),
            Err(e) => r == Err::<Block, TileError>(e),
        },
{
    let cs = chars_of(text);
    let lines = split_on(cs.as_slice(), '\n');
    proof {
        lemma_pieces_nonempty(text@, '\n', seq![]);
    }
    let total = match extract_value(&string_of(lines[0].as_slice())) {
        Ok(v) => v,
        Err(e) => return Err(e),
    };
    if lines.len() < 3 {
        return Err(TileError::InvalidData);
    }
    let avail = match extract_value(&string_of(lines[2].as_slice())) {
        Ok(v) => v,
        Err(e) => return Err(e),
    };
    let a = prettify_kib(avail);
    let t = prettify_kib(total);
    let full = a.clone().concat(" avail / ").concat(t.as_str());
    let short = a.concat(" / ").concat(t.as_str());
    Ok(Block::with_text(full, Some(short), "memory".to_string()))
}

/// `std::str::from_utf8`: the text that `bytes` encode, where they are UTF-8.
#[verifier::external_body]
fn utf8_text(bytes: &[u8]) -> (r: Option<&str>)
    ensures
        r is Some <==> vstd::utf8::valid_utf8(bytes@),
        r matches Some(s) ==> s@ == vstd::utf8::decode_utf8(bytes@),
{
    std::str::from_utf8(bytes).ok()
}

/// The memory block for the bytes read from `/proc/meminfo`.
pub fn memory_block(raw: &[u8]) -> (r: Result<Block, TileError>)
    ensures
        !vstd::utf8::valid_utf8(raw@) ==> r == Err::<Block, TileError>(TileError::Utf8),
        vstd::utf8::valid_utf8(raw@) ==> match meminfo(vstd::utf8::decode_utf8(raw@)) {
            Ok((avail, total)) => r matches Ok(b) && b.shows(
                memory_full_text(avail, total),
                Some(memory_short_text(avail, total)),
                "memory"@,
            ),
            Err(e) => r == Err::<Block, TileError>(e),
        },
{
    match utf8_text(raw) {
        Some(text) => memory_block_from_text(text),
        None => Err(TileError::Utf8),
    }
}

/// The size, in KiB, of the unit that `kib` KiB are shown in.
pub open spec fn unit_size(kib: u64) -> nat {
    let (shift, unit) = kib_unit(kib);
    if shift == 0 {
        1
    } else if shift == 10 {
        0x400
    } else if shift == 20 {
        0x100000
    } else if shift == 30 {
        0x40000000
    } else if shift == 40 {
        0x10000000000
    } else if shift == 50 {
        0x4000000000000
    } else {
        0x1000000000000000
    }
}

/// The number shown is the size in the chosen unit, rounded down; it is at
/// least 1 for any nonzero size, and below 1024 in every unit but the largest:
/// the unit is the largest that leaves at least 1.
pub proof fn lemma_pretty_kib_scale(kib: u64)
    ensures
        (kib >> kib_unit(kib).0) as nat == kib as nat / unit_size(kib),
        kib > 0 ==> (kib >> kib_unit(kib).0) >= 1,
        kib_unit(kib).1 != 'Z' ==> (kib >> kib_unit(kib).0) < 1024,
{
    if kib <= 0x3ff {
        assert(kib >> 0u64 == kib) by (bit_vector);
    } else if kib <= 0xfffff {
        assert(kib >> 10u64 == kib / 0x400) by (bit_vector);
    } else if kib <= 0x3fffffff {
        assert(kib >> 20u64 == kib / 0x100000) by (bit_vector);
    } else if kib <= 0xffffffffff {
        assert(kib >> 30u64 == kib / 0x40000000) by (bit_vector);
    } else if kib <= 0x3ffffffffffff {
        assert(kib >> 40u64 == kib / 0x10000000000) by (bit_vector);
    } else if kib <= 0xfffffffffffffff {
        assert(kib >> 50u64 == kib / 0x4000000000000) by (bit_vector);
    } else {
        assert(kib >> 60u64 == kib / 0x1000000000000000) by (bit_vector);
    }
}

/// 1024 to the power `n`.
pub open spec fn pow1024(n: nat) -> nat
    decreases n,
{
    if n == 0 {
        1
    } else {
        1024 * pow1024((n - 1) as nat)
    }
}

/// The letter of the `n`-th binary unit, counting KiB as the zeroth:
/// k, M, G, T, P, E, Z.
pub open spec fn unit_letter(n: int) -> char {
    seq!['k', 'M', 'G', 'T', 'P', 'E', 'Z'][n]
}

/// Whether `text` shows `kib` KiB in the `n`-th unit: the size in that unit,
/// rounded down, then a space, the unit's letter and `iB`; and the unit is the
/// largest that leaves at least 1 (the first for 0), up to the largest unit.
pub open spec fn shows_kib_in_unit(text: Seq<char>, kib: nat, n: int) -> bool {
    &&& 0 <= n <= 6
    &&& text == decimal(kib / pow1024(n as nat)) + seq![' ', unit_letter(n), 'i', 'B']
    &&& (n == 0 || kib / pow1024(n as nat) >= 1)
    &&& (n == 6 || kib / pow1024(n as nat) < 1024)
}

/// The memory text of any size is the size in the unit whose letter goes with
/// its scale: some unit `n` of the ladder k, M, G, T, P, E, Z holds the size
/// as a whole number from 1 (or 0) to 1023 (any number in the last unit).
pub proof fn lemma_pretty_kib_unit(kib: u64)
    ensures
        exists|n: int| shows_kib_in_unit(pretty_kib(kib), kib as nat, n),
{
    lemma_pretty_kib_scale(kib);
    reveal_with_fuel(pow1024, 7);
    let k = kib as nat;
    if kib <= 0x3ff {
        assert(shows_kib_in_unit(pretty_kib(kib), k, 0));
    } else if kib <= 0xfffff {
        assert(pow1024(1) == 0x400);
        assert(shows_kib_in_unit(pretty_kib(kib), k, 1));
    } else if kib <= 0x3fffffff {
        assert(pow1024(2) == 0x100000);
        assert(shows_kib_in_unit(pretty_kib(kib), k, 2));
    } else if kib <= 0xffffffffff {
        assert(pow1024(3) == 0x40000000);
        assert(shows_kib_in_unit(pretty_kib(kib), k, 3));
    } else if kib <= 0x3ffffffffffff {
        assert(pow1024(4) == 0x10000000000);
        assert(shows_kib_in_unit(pretty_kib(kib), k, 4));
    } else if kib <= 0xfffffffffffffff {
        assert(pow1024(5) == 0x4000000000000);
        assert(shows_kib_in_unit(pretty_kib(kib), k, 5));
    } else {
        assert(pow1024(6) == 0x1000000000000000);
        assert(shows_kib_in_unit(pretty_kib(kib), k, 6));
    }
}

} // verus!
