//! The time source: the SNTP exchange as bytes, the instant it yields, and
//! the RFC 3339 texts of an instant.
//!
//! Sending the request and waiting for the reply is the caller's part. What
//! the bytes mean, and which clock wins, is decided here.

use vstd::prelude::*;
use std::fmt::Write;
use chrono::{DateTime, FixedOffset, Offset, TimeZone, Utc};
use chrono_tz::Tz;

verus! {

/// Seconds between the NTP epoch (1900-01-01) and the Unix epoch (1970-01-01).
pub const NTP_UNIX_EPOCH_DIFF: i64 = 2_208_988_800;

/// Length of an SNTP packet without extensions.
pub const SNTP_PACKET_LEN: usize = 48;

/// First byte of a client request: leap indicator 0, version 4, mode 3.
pub const SNTP_CLIENT_HEADER: u8 = 0x23;

/// Unix seconds of 0000-01-01T00:00:00Z.
pub const FIRST_SECOND: i64 = -62_167_219_200;

/// Unix seconds of 9999-12-31T23:59:59Z.
pub const LAST_SECOND: i64 = 253_402_300_799;

/// The time zone in which a plan's local time is written.
pub const LOCAL_ZONE: &'static str = "Africa/Johannesburg";

/// How a time is shown in the list: day, month name, year, time of day.
pub const DISPLAY_PATTERN: &'static str = "%d %b %Y %H:%M:%S";

/// A point in time: whole seconds since the Unix epoch and the nanoseconds
/// into that second.
#[derive(Clone, Copy, Debug, PartialEq, Eq, Structural)]
pub struct Instant {
    pub secs: i64,
    pub nanos: u32,
}

/// A point in time as an RFC 3339 text gives it: the instant, and the offset
/// from UTC, in seconds, at which the text states it.
#[derive(Clone, Copy, Debug, PartialEq, Eq, Structural)]
pub struct Zoned {
    pub secs: i64,
    pub nanos: u32,
    pub offset: i32,
}

/// The time a new plan is stamped with, and where it came from.
#[derive(Clone, Copy, Debug, PartialEq, Eq, Structural)]
pub struct Reading {
    pub at: Instant,
    /// `false` where the system clock had to stand in for the network's.
    pub from_network: bool,
}

/// The instants that a four-digit year can express.
pub open spec fn in_common_era(secs: int, nanos: int) -> bool {
    FIRST_SECOND <= secs <= LAST_SECOND && 0 <= nanos < 1_000_000_000
}

/// The big-endian number in the four bytes of `bytes` that start at `at`.
pub open spec fn be_u32(bytes: Seq<u8>, at: int) -> int {
    bytes[at] * 0x100_0000 + bytes[at + 1] * 0x1_0000 + bytes[at + 2] * 0x100 + bytes[at + 3]
}

/// The server's transmit time in a reply: seconds since 1900 in bytes 40 to
/// 43, moved to the Unix epoch, and the binary fraction in bytes 44 to 47,
/// scaled to nanoseconds.
pub open spec fn sntp_instant(reply: Seq<u8>) -> Instant {
    Instant {
        secs: (be_u32(reply, 40) - NTP_UNIX_EPOCH_DIFF) as i64,
        nanos: (be_u32(reply, 44) * 1_000_000_000 / 0x1_0000_0000) as u32,
    }
}

/// The reading that a reply, if one came, and the system clock give: the
/// reply's time when the reply is complete, else the system clock's.
pub open spec fn reading_of(reply: Option<Seq<u8>>, system: Instant) -> Reading {
    match reply {
        Some(bytes) if bytes.len() >= SNTP_PACKET_LEN => Reading {
            at: sntp_instant(bytes),
            from_network: true,
        },
        _ => Reading { at: system, from_network: false },
    }
}

/// The RFC 3339 text of the instant `secs`, `nanos` at `offset` seconds east
/// of UTC, as chrono writes it.
pub uninterp spec fn rfc3339_text(secs: int, nanos: int, offset: int) -> Seq<char>;

/// What chrono reads out of an RFC 3339 text: seconds, nanoseconds and the
/// offset in seconds, or nothing where the text is none.
pub uninterp spec fn rfc3339_read(text: Seq<char>) -> Option<(int, int, int)>;

/// The offset from UTC, in seconds, that the IANA zone named `zone` keeps at
/// `secs`, or nothing where chrono-tz knows no zone of that name or chrono
/// cannot express the second.
pub uninterp spec fn zone_offset(zone: Seq<char>, secs: int) -> Option<int>;

/// The text that chrono writes for an instant at an offset under a
/// `strftime` pattern, or nothing where it cannot.
pub uninterp spec fn patterned_text(secs: int, nanos: int, offset: int, pattern: Seq<char>)
    -> Option<Seq<char>>;

/// The offset at which local times are written at `secs`: that of
/// `LOCAL_ZONE`, or UTC where the zone is not known or its offset is not less
/// than a day.
pub open spec fn local_offset(secs: int) -> int {
    match zone_offset(LOCAL_ZONE@, secs) {
        Some(offset) if -86_400 < offset < 86_400 => offset,
        _ => 0,
    }
}

/// The UTC text of an instant.
pub open spec fn utc_text(at: Instant) -> Seq<char> {
    rfc3339_text(at.secs as int, at.nanos as int, 0)
}

/// The local text of an instant.
pub open spec fn local_text(at: Instant) -> Seq<char> {
    rfc3339_text(at.secs as int, at.nanos as int, local_offset(at.secs as int))
}

/// How a stored time is shown: under `DISPLAY_PATTERN` where chrono can read
/// the text and write it so.
pub open spec fn display_text(stored: Seq<char>) -> Option<Seq<char>> {
    match rfc3339_read(stored) {
        Some((secs, nanos, offset)) => patterned_text(secs, nanos, offset, DISPLAY_PATTERN@),
        None => None,
    }
}

/// Without a complete reply the reading is the system clock's, whatever the
/// clock says: there is always a reading.
pub proof fn lemma_falls_back(reply: Option<Seq<u8>>, system: Instant)
    requires
        reply matches Some(bytes) ==> bytes.len() < SNTP_PACKET_LEN,
    ensures
        reading_of(reply, system) == (Reading { at: system, from_network: false }),
{
}

/// Calls chrono's `TimeZone::timestamp_opt` on `Utc`, `DateTime::with_timezone`
/// with a `FixedOffset` and `DateTime::to_rfc3339`. Trusted: on an instant of
/// the years 0 to 9999 and an offset of less than a day chrono builds both
/// values, and the text it writes depends on the three numbers alone.
#[verifier::external_body]
fn rfc3339_at(secs: i64, nanos: u32, offset: i32) -> (text: String)
    requires
        in_common_era(secs as int, nanos as int),
        -86_400 < offset < 86_400,
    ensures
        text@ == rfc3339_text(secs as int, nanos as int, offset as int),
{
    let zone = FixedOffset::east_opt(offset).expect("an offset of less than a day");
    let at = Utc.timestamp_opt(secs, nanos).single().expect("an instant of the common era");
    at.with_timezone(&zone).to_rfc3339()
}

/// Calls chrono's `DateTime::parse_from_rfc3339`, and `timestamp`,
/// `timestamp_subsec_nanos` and `offset().local_minus_utc()` on what it
/// returns. Trusted: the three numbers depend on the text alone.
#[verifier::external_body]
fn rfc3339_parts(text: &str) -> (r: Option<(i64, u32, i32)>)
    ensures
        match r {
            Some((secs, nanos, offset)) => rfc3339_read(text@) == Some(
                (secs as int, nanos as int, offset as int),
            ),
            None => rfc3339_read(text@) is None,
        },
{
    match DateTime::parse_from_rfc3339(text) {
        Ok(at) => Some(
            (at.timestamp(), at.timestamp_subsec_nanos(), at.offset().local_minus_utc()),
        ),
        Err(_) => None,
    }
}

/// Calls chrono-tz's `Tz::from_str` and `TimeZone::offset_from_utc_datetime`,
/// and chrono's `Offset::fix` and `FixedOffset::local_minus_utc`. Trusted: the
/// offset depends on the zone's name and the second alone. Where chrono-tz
/// knows no such zone, or chrono cannot build the instant, nothing is
/// returned.
#[verifier::external_body]
fn zone_offset_at(zone: &str, secs: i64) -> (r: Option<i32>)
    ensures
        match r {
            Some(offset) => zone_offset(zone@, secs as int) == Some(offset as int),
            None => zone_offset(zone@, secs as int) is None,
        },
{
    match (zone.parse::<Tz>(), Utc.timestamp_opt(secs, 0).single()) {
        (Ok(tz), Some(at)) => Some(
            tz.offset_from_utc_datetime(&at.naive_utc()).fix().local_minus_utc(),
        ),
        _ => None,
    }
}

/// Calls chrono's `DateTime::format` with the display pattern, and writes
/// what it returns to a `String`. Trusted: the text depends on the four
/// values alone; where chrono cannot build the instant or the offset, or
/// cannot write the time so, nothing is returned.
#[verifier::external_body]
fn patterned_at(secs: i64, nanos: u32, offset: i32, pattern: &str) -> (r: Option<String>)
    requires
        pattern@ == DISPLAY_PATTERN@,
    ensures
        match r {
            Some(text) => patterned_text(secs as int, nanos as int, offset as int, pattern@)
                == Some(text@),
            None => patterned_text(secs as int, nanos as int, offset as int, pattern@) is None,
        },
{
    match (FixedOffset::east_opt(offset), Utc.timestamp_opt(secs, nanos).single()) {
        (Some(zone), Some(at)) => {
            let mut text = String::new();
            match write!(text, "{}", at.with_timezone(&zone).format(pattern)) {
                Ok(()) => Some(text),
                Err(_) => None,
            }
        },
        _ => None,
    }
}

impl Instant {
    /// Whether a four-digit year can express the instant.
    pub open spec fn valid(&self) -> bool {
        in_common_era(self.secs as int, self.nanos as int)
    }

    /// An instant from its two parts, where a four-digit year can express it.
    pub fn new(secs: i64, nanos: u32) -> (r: Option<Instant>)
        ensures
            r == (if in_common_era(secs as int, nanos as int) {
                Some(Instant { secs, nanos })
            } else {
                None
            }),
    {
        if FIRST_SECOND <= secs && secs <= LAST_SECOND && nanos < 1_000_000_000 {
            Some(Instant { secs, nanos })
        } else {
            None
        }
    }

    /// The instant as RFC 3339 text in UTC.
    pub fn utc_text(&self) -> (text: String)
        requires
            self.valid(),
        ensures
            text@ == utc_text(*self),
    {
        rfc3339_at(self.secs, self.nanos, 0)
    }

    /// The instant as RFC 3339 text at the offset that `LOCAL_ZONE` keeps at
    /// that time.
    pub fn local_text(&self) -> (text: String)
        requires
            self.valid(),
        ensures
            text@ == local_text(*self),
    {
        let offset: i32 = offset_or_utc(zone_offset_at(LOCAL_ZONE, self.secs));
        rfc3339_at(self.secs, self.nanos, offset)
    }
}

/// The offset to write a local time at: the zone's where the zone is known
/// and its offset is less than a day, else none, which is UTC.
pub fn offset_or_utc(zone: Option<i32>) -> (offset: i32)
    ensures
        offset == (match zone {
            Some(found) if -86_400 < found < 86_400 => found,
            _ => 0,
        }),
{
    match zone {
        Some(found) => if -86_400 < found && found < 86_400 { found } else { 0 },
        None => 0,
    }
}

/// The request that asks an SNTP server for the time: the client header,
/// then zeros.
pub fn sntp_request() -> (packet: [u8; 48])
    ensures
        packet@.len() == SNTP_PACKET_LEN,
        packet@[0] == SNTP_CLIENT_HEADER,
        forall|i: int| 1 <= i < SNTP_PACKET_LEN ==> packet@[i] == 0,
{
    let mut packet = [0u8; 48];
    packet[0] = SNTP_CLIENT_HEADER;
    packet
}

/// The number in four bytes of a reply, most significant byte first.
fn read_be_u32(bytes: &[u8], at: usize) -> (r: u32)
    requires
        at + 4 <= bytes@.len(),
    ensures
        r == be_u32(bytes@, at as int),
{
    let value: u64 = (bytes[at] as u64) * 0x100_0000 + (bytes[at + 1] as u64) * 0x1_0000 + (
    bytes[at + 2] as u64) * 0x100 + (bytes[at + 3] as u64);
    value as u32
}

/// The time that an SNTP reply states, or nothing where the reply is shorter
/// than a packet.
pub fn sntp_time(reply: &[u8]) -> (r: Option<Instant>)
    ensures
        r == (if reply@.len() >= SNTP_PACKET_LEN {
            Some(sntp_instant(reply@))
        } else {
            None
        }),
        r matches Some(at) ==> at.valid(),
{
    if reply.len() < SNTP_PACKET_LEN {
        return None;
    }
    let ntp_secs: u32 = read_be_u32(reply, 40);
    let fraction: u32 = read_be_u32(reply, 44);
    let scaled: u64 = (fraction as u64) * 1_000_000_000;
    let nanos: u64 = scaled >> 32;
    assert(nanos == scaled / 0x1_0000_0000) by (bit_vector)
        requires
            nanos == scaled >> 32,
    ;
    let secs: i64 = ntp_secs as i64 - NTP_UNIX_EPOCH_DIFF;
    Some(Instant { secs, nanos: nanos as u32 })
}

/// The time to stamp a new plan with: the network's where a complete reply
/// came, else the system clock's. There is always a reading.
pub fn fetch_time(reply: Option<&[u8]>, system: Instant) -> (r: Reading)
    requires
        system.valid(),
    ensures
        r == reading_of(
            match reply {
                Some(bytes) => Some(bytes@),
                None => None,
            },
            system,
        ),
        r.at.valid(),
{
    let network: Option<Instant> = match reply {
        Some(bytes) => sntp_time(bytes),
        None => None,
    };
    match network {
        Some(at) => Reading { at, from_network: true },
        None => Reading { at: system, from_network: false },
    }
}

/// What an RFC 3339 text states, or nothing where the text is none.
pub fn read_rfc3339(text: &str) -> (r: Option<Zoned>)
    ensures
        match r {
            Some(z) => rfc3339_read(text@) == Some((z.secs as int, z.nanos as int, z.offset as int)),
            None => rfc3339_read(text@) is None,
        },
{
    match rfc3339_parts(text) {
        Some((secs, nanos, offset)) => Some(Zoned { secs, nanos, offset }),
        None => None,
    }
}

/// A stored time under `DISPLAY_PATTERN`, or nothing where the stored text
/// cannot be read as a time.
pub fn display_time(stored: &str) -> (r: Option<String>)
    ensures
        match r {
            Some(text) => display_text(stored@) == Some(text@),
            None => display_text(stored@) is None,
        },
{
    match read_rfc3339(stored) {
        Some(z) => patterned_at(z.secs, z.nanos, z.offset, DISPLAY_PATTERN),
        None => None,
    }
}

} // verus!
