//! How many partitions a wordlist is cut into, so that each partition can be sent
//! at a given request rate within a given time budget.
use vstd::prelude::*;
use crate::number::{i32_of, parse_i32};

verus! {

/// Why the number of partitions cannot be worked out.
#[derive(Debug, Clone, Copy, PartialEq, Eq, Structural)]
pub enum PartsError {
    /// The wordlist has more lines than a signed 32-bit number can count.
    TooManyLines,
    /// The time budget is not a positive signed 32-bit decimal number.
    InvalidTime,
    /// The request rate is not a positive signed 32-bit decimal number.
    InvalidRate,
}

/// `s` writes a positive signed 32-bit number.
pub open spec fn positive_i32(s: Seq<char>) -> bool {
    i32_of(s) is Some && i32_of(s)->0 > 0
}

/// Seconds in one minute of the time budget.
pub const SECONDS_PER_MINUTE: u64 = 60;

/// The number of partitions for `lines` wordlist lines, sent at `rate` requests per
/// second within `time` minutes: the whole windows that the lines fill, plus one.
pub open spec fn parts_spec(lines: int, rate: int, time: int) -> int {
    lines / (rate * 60 * time) + 1
}

/// The number of partitions of a wordlist of `lines` lines, for `rate` requests per
/// second and a budget of `time` minutes per partition.
pub fn partition_count(lines: u32, rate: u32, time: u32) -> (r: u32)
    requires
        rate > 0,
        time > 0,
    ensures
        r == parts_spec(lines as int, rate as int, time as int),
        r >= 1,
        60 * (r - 1) <= lines,
{
    let window: u64 = rate as u64 * SECONDS_PER_MINUTE;
    if window > lines as u64 {
        proof {
            lemma_window_beyond(lines as int, window as int, time as int);
        }
        return 1;
    }
    assert(window * time <= u32::MAX as int * u32::MAX as int) by (nonlinear_arith)
        requires
            window <= lines as int,
            lines as int <= u32::MAX as int,
            time as int <= u32::MAX as int,
            time >= 1,
    ;
    let divisor: u64 = window * time as u64;
    assert(divisor >= 60) by (nonlinear_arith)
        requires
            divisor == window * time,
            window >= 60,
            time >= 1,
    ;
    let q: u64 = lines as u64 / divisor;
    proof {
        vstd::arithmetic::div_mod::lemma_fundamental_div_mod(lines as int, divisor as int);
        vstd::arithmetic::div_mod::lemma_mod_bound(lines as int, divisor as int);
        vstd::arithmetic::div_mod::lemma_div_pos_is_pos(lines as int, divisor as int);
    }
    assert(60 * q <= lines as int) by (nonlinear_arith)
        requires
            lines as int == divisor * q + lines as int % divisor as int,
            lines as int % divisor as int >= 0,
            divisor >= 60,
            q >= 0,
    ;
    proof {
        assert(rate as int * 60 * time as int == divisor as int);
    }
    (q + 1) as u32
}

/// The number of partitions of a wordlist of `lines` lines, with the time budget in
/// minutes and the request rate per second given as decimal text.
pub fn get_number_of_parts(lines: usize, time: &str, rate: &str) -> (r: Result<i32, PartsError>)
    ensures
        lines > i32::MAX ==> r == Err::<i32, PartsError>(PartsError::TooManyLines),
        lines <= i32::MAX && !positive_i32(time@) ==> r == Err::<i32, PartsError>(
            PartsError::InvalidTime,
        ),
        lines <= i32::MAX && positive_i32(time@) && !positive_i32(rate@) ==> r == Err::<
            i32,
            PartsError,
        >(PartsError::InvalidRate),
        lines <= i32::MAX && positive_i32(time@) && positive_i32(rate@) ==> r is Ok && r->Ok_0
            == parts_spec(lines as int, i32_of(rate@)->0, i32_of(time@)->0),
{
    if lines > 2147483647 {
        return Err(PartsError::TooManyLines);
    }
    let t = match parse_i32(time) {
        Some(t) if t > 0 => t,
        _ => return Err(PartsError::InvalidTime),
    };
    let q = match parse_i32(rate) {
        Some(q) if q > 0 => q,
        _ => return Err(PartsError::InvalidRate),
    };
    let n = partition_count(lines as u32, q as u32, t as u32);
    Ok(n as i32)
}

/// When a window of `window` lines already exceeds `lines`, so does every multiple
/// of it, and no whole window is filled.
proof fn lemma_window_beyond(lines: int, window: int, time: int)
    requires
        0 <= lines < window,
        time >= 1,
    ensures
        lines / (window * time) == 0,
{
    assert(window * time >= window) by (nonlinear_arith)
        requires
            window > 0,
            time >= 1,
    ;
    vstd::arithmetic::div_mod::lemma_basic_div(lines, window * time);
}

/// For every rate and time budget, any wordlist, however short, gets at least one
/// partition.
pub proof fn lemma_parts_at_least_one(lines: int, rate: int, time: int)
    requires
        lines >= 0,
        rate > 0,
        time > 0,
    ensures
        parts_spec(lines, rate, time) >= 1,
{
    assert(rate * 60 * time > 0) by (nonlinear_arith)
        requires
            rate > 0,
            time > 0,
    ;
    vstd::arithmetic::div_mod::lemma_div_pos_is_pos(lines, rate * 60 * time);
}

} // verus!
