//! The battery tile: charge in percent and the charging status, from the
//! files of the first battery under `/sys/class/power_supply`.
use vstd::prelude::*;

use crate::text::{chars_of, decimal, decimal_string, parse_decimal, parse_unsigned, string_of, trim_end, trim_end_chars};
use crate::tile::Block;
use crate::tiles::TileError;

verus! {

broadcast use vstd::string::group_string_axioms;

/// The charge that the text of `charge_now` or `charge_full` holds: a number
/// followed by nothing but white space.
pub open spec fn charge_value(raw: Seq<char>) -> Result<nat, TileError> {
    match parse_unsigned(trim_end(raw), u32::MAX as nat) {
        Ok(v) => Ok(v),
        Err(e) => Err(TileError::ParseInt(e)),
    }
}

/// The charge written in `raw`, the content of `charge_now` or `charge_full`.
pub fn parse_charge(raw: &str) -> (r: Result<u32, TileError>)
    ensures
        match charge_value(raw@) {
            Ok(v) => r == Ok::<u32, TileError>(v as u32),
            Err(e) => r == Err::<u32, TileError>(e),
        },
{
    let cs = chars_of(raw);
    let t = trim_end_chars(cs.as_slice());
    match parse_decimal(t.as_slice(), 0xffff_ffff) {
        Ok(v) => Ok(v as u32),
        Err(e) => Err(TileError::ParseInt(e)),
    }
}

/// The charging status shown: the content of `status` without its trailing
/// white space.
pub fn status_text(raw: &str) -> (s: String)
    ensures
        s@ == trim_end(raw@),
{
    let cs = chars_of(raw);
    let t = trim_end_chars(cs.as_slice());
    string_of(t.as_slice())
}

/// The charge in percent of the full charge, rounded down.
pub open spec fn percentage(charge_now: u32, charge_full: u32) -> nat {
    (charge_now * 100 / charge_full as int) as nat
}

/// The charge in percent of the full charge, rounded down.
pub fn battery_percentage(charge_now: u32, charge_full: u32) -> (p: u32)
    requires
        charge_full > 0,
        charge_now * 100 <= u32::MAX,
    ensures
        p == percentage(charge_now, charge_full),
        p * charge_full <= charge_now * 100 < (p + 1) * charge_full,
{
    proof {
        lemma_percentage_rounds_down(charge_now, charge_full);
    }
    charge_now * 100 / charge_full
}

/// The battery block: `"{percent}% {status}"`, and `"{percent}%"` where space is
/// scarce; `status` is the raw content of the `status` file.
pub fn battery_block(charge_now: u32, charge_full: u32, status: &str) -> (b: Block)
    requires
        charge_full > 0,
        charge_now * 100 <= u32::MAX,
    ensures
        b.shows(
            decimal(percentage(charge_now, charge_full)) + "% "@ + trim_end(status@),
            Some(decimal(percentage(charge_now, charge_full)) + "%"@),
            "battery"@,
        ),
{
    let p = battery_percentage(charge_now, charge_full);
    let digits = decimal_string(p as u64);
    let st = status_text(status);
    let full = digits.clone().concat("% ").concat(st.as_str());
    let short = digits.concat("%");
    Block::with_text(full, Some(short), "battery".to_string())
}

/// The percentage shown is the charge in percent of the full charge, rounded
/// down: the largest whole number `p` with `p` percent of the full charge at
/// most the charge.
pub proof fn lemma_percentage_rounds_down(charge_now: u32, charge_full: u32)
    requires
        charge_full > 0,
    ensures
        percentage(charge_now, charge_full) * charge_full <= charge_now * 100,
        charge_now * 100 < (percentage(charge_now, charge_full) + 1) * charge_full,
{
    let p = percentage(charge_now, charge_full);
    let n = charge_now * 100;
    let f = charge_full as int;
    assert(p == n / f);
    assert((n / f) * f <= n && n < (n / f + 1) * f) by (nonlinear_arith)
        requires
            f > 0,
            n >= 0,
    ;
}

} // verus!
