//! Time and id utilities without an outside crate: stable ids (`gen_id`) and
//! ISO-8601 UTC time stamps (`now_iso8601`).

use vstd::prelude::*;

use crate::chars::{digits, hex, padded_decimal, push_digits, push_padded_decimal, push_str, string_from_chars};

verus! {

/// The SplitMix64 mixing function.
pub open spec fn splitmix64_spec(x: u64) -> u64 {
    let x = x.wrapping_add(0x9E37_79B9_7F4A_7C15u64);
    let z = (x ^ (x >> 30u64)).wrapping_mul(0xBF58_476D_1CE4_E5B9u64);
    let z = (z ^ (z >> 27u64)).wrapping_mul(0x94D0_49BB_1331_11EBu64);
    z ^ (z >> 31u64)
}

/// Small SplitMix64 scatter for the random part of `gen_id`.
pub fn splitmix64(x: u64) -> (r: u64)
    ensures
        r == splitmix64_spec(x),
{
    let x = x.wrapping_add(0x9E37_79B9_7F4A_7C15u64);
    let mut z = x;
    z = (z ^ (z >> 30u64)).wrapping_mul(0xBF58_476D_1CE4_E5B9u64);
    z = (z ^ (z >> 27u64)).wrapping_mul(0x94D0_49BB_1331_11EBu64);
    z ^ (z >> 31u64)
}

/// Days since 1970-01-01 → (year, month, day) in the proleptic Gregorian
/// calendar (Howard Hinnant's algorithm; `/` rounds down).
pub open spec fn civil_from_days_spec(z: int) -> (int, int, int) {
    let z = z + 719468;
    let era = z / 146097;
    let doe = z - era * 146097;
    let yoe = (doe - doe / 1460 + doe / 36524 - doe / 146096) / 365;
    let y = yoe + era * 400;
    let doy = doe - (365 * yoe + yoe / 4 - yoe / 100);
    let mp = (5 * doy + 2) / 153;
    let d = doy - (153 * mp + 2) / 5 + 1;
    let m = if mp < 10 {
        mp + 3
    } else {
        mp - 9
    };
    (if m <= 2 {
        y + 1
    } else {
        y
    }, m, d)
}

/// Number of days of month `m` (1..=12); February counted with 29.
pub open spec fn max_month_days(m: int) -> int {
    if m == 2 {
        29
    } else if m == 4 || m == 6 || m == 9 || m == 11 {
        30
    } else {
        31
    }
}

/// Inside one 400-year era the day of the era splits into a year of the era
/// and a day of the (March-based) year within bounds.
proof fn lemma_era_split(doe: u32)
    requires
        doe < 146097,
    ensures
        ({
            let yoe = (doe - doe / 1460 + doe / 36524 - doe / 146096) / 365;
            &&& doe / 1460 <= doe
            &&& yoe < 400
            &&& 365 * yoe + yoe / 4 - yoe / 100 <= doe
            &&& doe - (365 * yoe + yoe / 4 - yoe / 100) <= 365
        }),
{
    assert({
        let yoe = (doe - doe / 1460 + doe / 36524 - doe / 146096) / 365;
        &&& doe / 1460 <= doe
        &&& yoe < 400
        &&& 365 * yoe + yoe / 4 - yoe / 100 <= doe
        &&& doe - (365 * yoe + yoe / 4 - yoe / 100) <= 365
    }) by (bit_vector)
        requires
            doe < 146097u32,
    ;
}

/// The month-of-year split of a (March-based) day of the year.
proof fn lemma_month_split(doy: u32)
    requires
        doy <= 365,
    ensures
        ({
            let mp = (5 * doy + 2) / 153;
            let d = doy - (153 * mp + 2) / 5 + 1;
            let m = if mp < 10 { mp + 3 } else { mp - 9 };
            &&& mp < 12
            &&& (153 * mp + 2) / 5 <= doy
            &&& 1 <= d <= 31
            &&& 1 <= m <= 12
            &&& d <= max_month_days(m as int)
        }),
{
    assert({
        let mp = (5 * doy + 2) / 153;
        &&& mp < 12
        &&& (153 * mp + 2) / 5 <= doy
        &&& doy - (153 * mp + 2) / 5 + 1 <= if mp == 11 { 29u32 } else if mp == 1 || mp == 3 || mp == 6 || mp == 8 { 30u32 } else { 31u32 }
    }) by (bit_vector)
        requires
            doy <= 365u32,
    ;
}

} // verus!

verus! {

proof fn lemma_floor_div_negative(zz: int, q: int)
    requires
        zz < 0,
        q == (146096 - zz) / 146097,
    ensures
        -q == zz / 146097,
{
    let a = 146096 - zz;
    assert(a > 0);
    assert(146097 * q <= a < 146097 * q + 146097) by (nonlinear_arith)
        requires
            a > 0,
            q == a / 146097,
    ;
    assert(zz / 146097 == -q) by (nonlinear_arith)
        requires
            146097 * q <= 146096 - zz < 146097 * q + 146097,
    ;
}

proof fn lemma_floor_div_bounds(zz: int, era: int)
    requires
        era == zz / 146097,
    ensures
        0 <= zz - era * 146097 < 146097,
{
    assert(0 <= zz - era * 146097 < 146097) by (nonlinear_arith)
        requires
            era == zz / 146097,
    ;
}

/// Days since 1970-01-01 → (year, month, day).
pub fn civil_from_days(z: i64) -> (r: (i64, u32, u32))
    requires
        i64::MIN + 146097 - 719468 <= z <= i64::MAX - 719468,
    ensures
        (r.0 as int, r.1 as int, r.2 as int) == civil_from_days_spec(z as int),
        1 <= r.1 <= 12,
        1 <= r.2 <= max_month_days(r.1 as int),
{
    let zz: i64 = z + 719468;
    let era: i64 = if zz >= 0 {
        zz / 146097
    } else {
        let q = (146096 - zz) / 146097;
        proof {
            lemma_floor_div_negative(zz as int, q as int);
        }
        -q
    };
    assert(era == zz as int / 146097);
    proof {
        lemma_floor_div_bounds(zz as int, era as int);
        assert(-64000000000000 <= era <= 64000000000000) by (nonlinear_arith)
            requires
                0 <= zz - era * 146097 < 146097,
                i64::MIN + 146097 <= zz <= i64::MAX,
        ;
    }
    let doe: u32 = (zz - era * 146097) as u32;
    proof {
        lemma_era_split(doe);
    }
    let yoe: u32 = (doe - doe / 1460 + doe / 36524 - doe / 146096) / 365;
    let y: i64 = yoe as i64 + era * 400;
    let doy: u32 = doe - (365 * yoe + yoe / 4 - yoe / 100);
    proof {
        lemma_month_split(doy);
    }
    let mp: u32 = (5 * doy + 2) / 153;
    let d: u32 = doy - (153 * mp + 2) / 5 + 1;
    let m: u32 = if mp < 10 {
        mp + 3
    } else {
        mp - 9
    };
    (if m <= 2 {
        y + 1
    } else {
        y
    }, m, d)
}

/// `YYYY-MM-DDTHH:MM:SSZ` for the given calendar values.
pub open spec fn iso8601_chars(
    year: nat,
    month: nat,
    day: nat,
    hh: nat,
    mm: nat,
    ss: nat,
) -> Seq<char> {
    padded_decimal(year, 4) + seq!['-'] + padded_decimal(month, 2) + seq!['-'] + padded_decimal(
        day,
        2,
    ) + seq!['T'] + padded_decimal(hh, 2) + seq![':'] + padded_decimal(mm, 2) + seq![':']
        + padded_decimal(ss, 2) + seq!['Z']
}

/// Seconds since the epoch as `YYYY-MM-DDTHH:MM:SSZ` (UTC).
pub open spec fn iso8601_spec(secs: u64) -> Seq<char> {
    let days = secs / 86400;
    let rem = secs % 86400;
    let date = civil_from_days_spec(days as int);
    iso8601_chars(
        date.0 as nat,
        date.1 as nat,
        date.2 as nat,
        (rem / 3600) as nat,
        ((rem % 3600) / 60) as nat,
        (rem % 60) as nat,
    )
}

/// Formats seconds since the epoch as `YYYY-MM-DDTHH:MM:SSZ` (UTC).
pub fn format_iso8601(secs: u64) -> (s: String)
    ensures
        s@ == iso8601_spec(secs),
        civil_from_days_spec((secs / 86400) as int).0 >= 1970,
{
    let days = secs / 86400;
    let rem = secs % 86400;
    let hh = rem / 3600;
    let mm = (rem % 3600) / 60;
    let ss = rem % 60;
    assert(days <= 213503982334601) by (nonlinear_arith)
        requires
            days == secs / 86400,
    ;
    let (year, month, day) = civil_from_days(days as i64);
    proof {
        let zz = days as int + 719468;
        let era = zz / 146097;
        assert(era >= 4) by (nonlinear_arith)
            requires
                zz >= 719468,
                era == zz / 146097,
        ;
        assert(era * 400 >= 1600) by (nonlinear_arith)
            requires
                era >= 4,
        ;
        assert(year >= 1600);
    }
    let mut out: Vec<char> = Vec::new();
    push_padded_decimal(&mut out, year as u64, 4);
    out.push('-');
    push_padded_decimal(&mut out, month as u64, 2);
    out.push('-');
    push_padded_decimal(&mut out, day as u64, 2);
    out.push('T');
    push_padded_decimal(&mut out, hh, 2);
    out.push(':');
    push_padded_decimal(&mut out, mm, 2);
    out.push(':');
    push_padded_decimal(&mut out, ss, 2);
    out.push('Z');
    assert(out@ =~= iso8601_spec(secs));
    string_from_chars(&out)
}

} // verus!

verus! {

/// Reads the system clock: `std::time::SystemTime::now()` measured from
/// `UNIX_EPOCH`, in whole seconds (0 when the clock lies before the epoch).
/// Depends on the clock; nothing is stated of the result.
#[verifier::external_body]
fn unix_seconds() -> u64 {
    std::time::SystemTime::now().duration_since(std::time::UNIX_EPOCH).map(|d| d.as_secs()).unwrap_or(0)
}

/// Reads the system clock: `std::time::SystemTime::now()` measured from
/// `UNIX_EPOCH`, in nanoseconds (0 when the clock lies before the epoch).
/// Depends on the clock; nothing is stated of the result.
#[verifier::external_body]
pub(crate) fn unix_nanos() -> u128 {
    std::time::SystemTime::now().duration_since(std::time::UNIX_EPOCH).map(|d| d.as_nanos()).unwrap_or(0)
}

/// `std::collections::hash_map::RandomState::new()`: a hash builder with
/// random keys. Random; nothing is stated of it.
#[verifier::external_body]
fn random_state() -> std::collections::hash_map::RandomState {
    std::collections::hash_map::RandomState::new()
}

/// `std::hash::BuildHasher::hash_one` of `x` with the builder `state`. The
/// keys of a `RandomState` are random; nothing is stated of the result.
#[verifier::external_body]
fn hash_one(state: &std::collections::hash_map::RandomState, x: u128) -> u64 {
    std::hash::BuildHasher::hash_one(state, x)
}

/// Current time as ISO-8601 UTC string (`YYYY-MM-DDTHH:MM:SSZ`).
pub fn now_iso8601() -> (s: String)
    ensures
        exists|secs: u64| s@ == iso8601_spec(secs),
{
    let secs = unix_seconds();
    format_iso8601(secs)
}

/// Characters of an id: `lx-<time hex>-<random hex>`.
pub open spec fn id_chars(nanos: u64, rand: u64) -> Seq<char> {
    "lx-"@ + hex(nanos as nat) + seq!['-'] + hex(rand as nat)
}

/// Id from a time stamp in nanoseconds and a scatter value: the time part is
/// the lower 64 bits of `nanos`, the random part SplitMix64 of the lower 64
/// bits of `nanos ^ (entropy * 0x9E37_79B9)` (wrapping).
pub open spec fn id_spec(nanos: u128, entropy: u128) -> Seq<char> {
    id_chars(nanos as u64, splitmix64_spec((nanos ^ entropy.wrapping_mul(0x9E37_79B9u128)) as u64))
}

/// Builds the id for a given time stamp and scatter value.
pub fn gen_id_from(nanos: u128, entropy: u128) -> (s: String)
    ensures
        s@ == id_spec(nanos, entropy),
{
    let seed = nanos ^ entropy.wrapping_mul(0x9E37_79B9u128);
    let rand = splitmix64(seed as u64);
    let mut out: Vec<char> = Vec::new();
    push_str(&mut out, "lx-");
    push_digits(&mut out, nanos as u64, 16);
    out.push('-');
    push_digits(&mut out, rand, 16);
    assert(out@ =~= id_spec(nanos, entropy));
    string_from_chars(&out)
}

/// Creates a stable, practically unique id: `lx-<time hex>-<random hex>`.
/// The time part (ns since the epoch) makes ids roughly sortable, the random
/// part prevents collisions between quick calls.
pub fn gen_id() -> (s: String)
    ensures
        exists|nanos: u128, entropy: u128| s@ == id_spec(nanos, entropy),
{
    let nanos = unix_nanos();
    let keys = random_state();
    let entropy = hash_one(&keys, nanos) as u128;
    gen_id_from(nanos, entropy)
}

} // verus!
