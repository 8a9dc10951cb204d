//! When an alert message was written and what a conversation is called: a
//! reading of the system clock, and a time-ordered UUID (version 7) built
//! from it. Neither can fail: a clock before the Unix epoch reads as the
//! epoch, and without random bytes a counter stands in for them.

use vstd::prelude::*;

verus! {

/// The time since the Unix epoch as whole seconds and the nanoseconds
/// past them: `std::time::SystemTime::elapsed` on `UNIX_EPOCH`, its
/// `Duration` taken apart into `as_secs` and `subsec_nanos`. None if the
/// clock reads before the epoch (the call's error). The reading depends on
/// the clock, so only what `Duration` documents of every value is promised:
/// the nanoseconds are below one billion.
#[verifier::external_body]
fn since_epoch() -> (res: Option<(u64, u32)>)
    ensures
        res matches Some((_, n)) ==> n < 1_000_000_000,
{
    std::time::UNIX_EPOCH.elapsed().ok().map(|d| (d.as_secs(), d.subsec_nanos()))
}

/// The nanoseconds since the epoch that fit an `i64`.
pub open spec fn nanos_of(secs: u64, nanos: u32) -> i64 {
    if secs < 9_223_372_036 {
        (secs * 1_000_000_000 + nanos) as i64
    } else {
        i64::MAX
    }
}

/// A clock reading (seconds and nanoseconds since the epoch, none if the
/// clock reads before it) as nanoseconds: 0 before the epoch, `i64::MAX`
/// past the year 2262.
pub fn nanos_from_reading(reading: Option<(u64, u32)>) -> (t: i64)
    requires
        reading matches Some((_, n)) ==> n < 1_000_000_000,
    ensures
        t == match reading {
            Some((secs, nanos)) => nanos_of(secs, nanos),
            None => 0,
        },
        t >= 0,
{
    match reading {
        Some((secs, nanos)) => {
            if secs < 9_223_372_036 {
                (secs * 1_000_000_000 + nanos as u64) as i64
            } else {
                i64::MAX
            }
        },
        None => 0,
    }
}

/// The current time in nanoseconds since the Unix epoch, UTC, as
/// `nanos_from_reading` makes it of the system clock.
pub fn now_nanos() -> (t: i64)
    ensures
        t >= 0,
{
    nanos_from_reading(since_epoch())
}

/// Ten bytes from the system's random source (`getrandom::fill`); none if
/// the source fails. They are chance, so nothing is promised of them.
#[verifier::external_body]
fn random_bytes() -> (res: Option<[u8; 10]>) {
    let mut bytes = [0u8; 10];
    getrandom::fill(&mut bytes).ok().map(|_| bytes)
}

/// The 128-bit value of the version 7 UUID for `millis` milliseconds after
/// the epoch and the ten bytes `r` (RFC 9562, section 5.7): the low 48 bits
/// of the time, the version 7, twelve bits from the first two bytes, the
/// variant `10`, six bits of the third byte and the last seven bytes.
pub open spec fn uuid_v7_value(millis: u64, r: Seq<u8>) -> int {
    (millis as int % 0x1_0000_0000_0000) * 0x1_0000_0000_0000_0000_0000 + 7 * 0x1000_0000_0000_0000_0000 + ((r[0]
        as int % 16) * 256 + r[1] as int) * 0x1_0000_0000_0000_0000 + (128 + r[2] as int % 64) * 0x100_0000_0000_0000
        + r[3] as int * 0x1_0000_0000_0000 + r[4] as int * 0x100_0000_0000 + r[5] as int * 0x1_0000_0000 + r[6] as int
        * 0x100_0000 + r[7] as int * 0x1_0000 + r[8] as int * 0x100 + r[9] as int
}

/// `uuid::Builder::from_unix_timestamp_millis` with these bytes, then
/// `into_uuid` and `as_u128`: the UUID's big-endian value, laid out as
/// `uuid_v7_value` states.
#[verifier::external_body]
fn uuid_v7(millis: u64, random: [u8; 10]) -> (res: u128)
    ensures
        res as int == uuid_v7_value(millis, random@),
{
    uuid::Builder::from_unix_timestamp_millis(millis, &random).into_uuid().as_u128()
}

/// The bytes that stand in for random ones: two zero bytes, then
/// `counter` big-endian.
pub open spec fn counter_bytes(counter: u64) -> Seq<u8> {
    seq![
        0u8,
        0u8,
        (counter as int / 0x100_0000_0000_0000 % 256) as u8,
        (counter as int / 0x1_0000_0000_0000 % 256) as u8,
        (counter as int / 0x100_0000_0000 % 256) as u8,
        (counter as int / 0x1_0000_0000 % 256) as u8,
        (counter as int / 0x100_0000 % 256) as u8,
        (counter as int / 0x1_0000 % 256) as u8,
        (counter as int / 0x100 % 256) as u8,
        (counter as int % 256) as u8,
    ]
}

/// The id for a conversation started at `t` nanoseconds after the epoch:
/// the version 7 UUID of its millisecond with the `drawn` random bytes, or,
/// if none could be drawn, with `counter_bytes(counter)` in their place.
pub fn id_from(t: i64, counter: u64, drawn: Option<[u8; 10]>) -> (id: u128)
    requires
        t >= 0,
    ensures
        id as int == uuid_v7_value(
            (t / 1_000_000) as u64,
            match drawn {
                Some(b) => b@,
                None => counter_bytes(counter),
            },
        ),
{
    let millis = (t / 1_000_000) as u64;
    let bytes = match drawn {
        Some(b) => b,
        None => [
            0u8,
            0u8,
            (counter / 0x100_0000_0000_0000 % 256) as u8,
            (counter / 0x1_0000_0000_0000 % 256) as u8,
            (counter / 0x100_0000_0000 % 256) as u8,
            (counter / 0x1_0000_0000 % 256) as u8,
            (counter / 0x100_0000 % 256) as u8,
            (counter / 0x1_0000 % 256) as u8,
            (counter / 0x100 % 256) as u8,
            (counter % 256) as u8,
        ],
    };
    proof {
        if drawn is None {
            assert(bytes@ =~= counter_bytes(counter));
        }
    }
    uuid_v7(millis, bytes)
}

/// A fresh id for a conversation started at `t` nanoseconds after the
/// epoch: `id_from` with ten bytes from the random source, or with
/// `counter` (the conversations already kept) if the source fails, so that
/// ids of one millisecond still differ.
pub fn new_id(t: i64, counter: u64) -> (id: u128)
    requires
        t >= 0,
    ensures
        exists|r: Seq<u8>| r.len() == 10 && id as int == uuid_v7_value((t / 1_000_000) as u64, r),
{
    let drawn = random_bytes();
    let id = id_from(t, counter, drawn);
    proof {
        match drawn {
            Some(b) => {
                assert(b@.len() == 10);
            },
            None => {
                assert(counter_bytes(counter).len() == 10);
            },
        }
    }
    id
}

/// The id a conversation gets, given the id `candidate` made for it and
/// the greatest id made before: the candidate if it is greater, else the
/// next value after that greatest one, so that ids follow the order in
/// which they were made, also within one millisecond.
pub open spec fn in_order(candidate: u128, last: u128) -> u128 {
    if candidate > last {
        candidate
    } else if last < u128::MAX {
        (last + 1) as u128
    } else {
        last
    }
}

/// The id a conversation gets, as `in_order` states it.
pub fn next_in_order(candidate: u128, last: u128) -> (id: u128)
    ensures
        id == in_order(candidate, last),
{
    if candidate > last {
        candidate
    } else if last < u128::MAX {
        last + 1
    } else {
        last
    }
}

/// Ids follow the order in which they are made: below the largest value,
/// each id is greater than every id made before it.
pub proof fn law_ids_follow_creation_order(candidate: u128, last: u128)
    requires
        last < u128::MAX,
    ensures
        in_order(candidate, last) > last,
{
}

} // verus!
