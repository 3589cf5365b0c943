//! SportIdent punch records: their 20-byte encoding, its checksum, and the search for a record
//! in a byte stream.
//!
//! Times are held as plain numbers: a date is its number of days from the common era, as
//! `chrono::NaiveDate::num_days_from_ce` counts them (0001-01-01, a Monday, is day 1), a time
//! of day is its seconds from midnight and its nanoseconds.
use vstd::prelude::*;

use crate::error::Error;
use crate::system_info::{days_from_ce, min_year};
use crate::text::{find_from, first_occurrence, lemma_find_from, lemma_first_occurrence_unique};
use vstd::arithmetic::div_mod::{
    lemma_fundamental_div_mod, lemma_fundamental_div_mod_converse, lemma_mod_pos_bound,
};

verus! {

/// The length of a raw punch record in bytes.
pub const LEN: usize = 20;

/// Card numbers of the first four series are stored in a shorter form: the series digit is
/// worth 65536 instead of 100000.
pub const EARLY_SERIES_COMPLEMENT: u32 = 34464;

/// SportIdent times have a precision of 1/256 s: this many nanoseconds.
pub const BILLION_BY_256: u32 = 3906250;

/// Seconds in half a day.
pub const HALF_DAY_SECS: u32 = 43200;

/// The byte that ends a record.
pub const FOOTER: u8 = 0x03;

/// The four bytes that begin a record.
pub open spec fn header() -> Seq<u8> {
    seq![0xffu8, 0x02u8, 0xd3u8, 0x0du8]
}

/// A local date and time.
#[derive(Debug, Clone, Copy, PartialEq, Eq, Structural)]
pub struct LocalDateTime {
    /// Days from the common era; 0001-01-01 is day 1.
    pub date: i32,
    /// Seconds from midnight.
    pub secs: u32,
    /// Nanoseconds of the second.
    pub nanos: u32,
}

/// A local date and time with its offset from UTC.
#[derive(Debug, Clone, Copy, PartialEq, Eq, Structural)]
pub struct DateTimeOffset {
    pub local: LocalDateTime,
    /// Seconds east of UTC.
    pub offset: i32,
}

/// A SportIdent punch: a card punched at a control at a time.
#[derive(Debug, Clone, Copy, PartialEq, Eq)]
pub struct SiPunch {
    /// The number of the card.
    pub card: u32,
    /// The code of the control.
    pub code: u16,
    /// The time of the punch.
    pub time: DateTimeOffset,
    /// The kind of station (start, finish, control...).
    pub mode: u8,
    /// The 20-byte record that the punch was read from or encoded into.
    pub raw: [u8; 20],
}

/// The day of the week of `date`, counted from Sunday (0) to Saturday (6).
pub open spec fn weekday_spec(date: i32) -> int {
    (date as int) % 7
}

/// The day of the week of `date`, counted from Sunday.
pub fn weekday_from_sunday(date: i32) -> (r: u32)
    ensures
        r == weekday_spec(date),
        r < 7,
{
    let shifted: i64 = date as i64 + 7 * 0x8000_0000;
    assert((shifted as int) % 7 == (date as int) % 7) by (nonlinear_arith)
        requires
            shifted as int == date as int + 7 * 0x8000_0000,
    ;
    ((shifted as u64) % 7) as u32
}

/// The date that is `days` days before `date`.
pub fn date_minus_days(date: i32, days: u32) -> (r: i32)
    requires
        date as int - days as int >= i32::MIN,
    ensures
        r == date as int - days as int,
{
    (date as i64 - days as i64) as i32
}

/// How many days back from `today` the last day with weekday `dow` is.
pub open spec fn days_back(dow: int, today: i32) -> int {
    (weekday_spec(today) + 7 - dow) % 7
}

/// The latest date, not after `today`, whose weekday (counted from Sunday) is `dow`; 7 counts
/// as Sunday.
pub fn last_dow(dow: u8, today: i32) -> (r: i32)
    requires
        dow <= 7,
        today as int - 6 >= i32::MIN,
    ensures
        r == today as int - days_back(dow as int, today),
{
    let days = (weekday_from_sunday(today) + 7 - dow as u32) % 7;
    date_minus_days(today, days)
}

/// The seconds from midnight that the time bytes of a record give.
pub open spec fn record_seconds(data: Seq<u8>) -> int {
    (data[0] % 2) as int * HALF_DAY_SECS + data[1] as int * 256 + data[2] as int
}

/// The local date and time that the four time bytes of a record give, the date being the last
/// one up to `today` with the weekday of the record.
pub open spec fn bytes_to_datetime_spec(data: Seq<u8>, today: i32) -> LocalDateTime {
    LocalDateTime {
        date: (today as int - days_back(((data[0] % 16) / 2) as int, today)) as i32,
        secs: record_seconds(data) as u32,
        nanos: (data[3] as int * BILLION_BY_256) as u32,
    }
}

/// Reads the four time bytes of a record: the weekday and the half of the day in the first,
/// the seconds within the half day in the next two, and 1/256 seconds in the last.
pub fn bytes_to_datetime(data: &[u8], today: i32) -> (r: LocalDateTime)
    requires
        data@.len() == 4,
        record_seconds(data@) < 86400,
        today as int - 6 >= i32::MIN,
    ensures
        r == bytes_to_datetime_spec(data@, today),
{
    let dow = (data[0] % 16) / 2;
    let date = last_dow(dow, today);
    let seconds: u32 = (data[0] % 2) as u32 * HALF_DAY_SECS + data[1] as u32 * 256 + data[2] as u32;
    let nanos: u32 = data[3] as u32 * BILLION_BY_256;
    LocalDateTime { date, secs: seconds, nanos }
}

/// The four time bytes of a record for a local time.
pub open spec fn time_to_bytes_spec(time: LocalDateTime) -> Seq<u8> {
    let pm = time.secs >= HALF_DAY_SECS;
    let s = if pm {
        time.secs - HALF_DAY_SECS
    } else {
        time.secs as int
    };
    seq![
        (weekday_spec(time.date) * 2 + if pm { 1int } else { 0int }) as u8,
        (s / 256) as u8,
        (s % 256) as u8,
        (time.nanos / BILLION_BY_256) as u8,
    ]
}

/// Writes the four time bytes of a record for a local time.
pub fn time_to_bytes(time: LocalDateTime) -> (r: [u8; 4])
    requires
        time.secs < 86400,
        time.nanos < 1_000_000_000,
    ensures
        r@ == time_to_bytes_spec(time),
{
    let wd = weekday_from_sunday(time.date);
    let pm = time.secs >= HALF_DAY_SECS;
    let b0: u8 = if pm {
        (wd * 2 + 1) as u8
    } else {
        (wd * 2) as u8
    };
    let secs: u32 = if pm {
        time.secs - HALF_DAY_SECS
    } else {
        time.secs
    };
    let r = [b0, (secs / 256) as u8, (secs % 256) as u8, (time.nanos / BILLION_BY_256) as u8];
    assert(r@ =~= time_to_bytes_spec(time));
    r
}

/// The stored form of a card number: early series lose their complement.
pub open spec fn card_encoding(card: u32) -> int {
    let series = card / 100000;
    if series <= 4 {
        card - series * EARLY_SERIES_COMPLEMENT
    } else {
        card as int
    }
}

/// The card number that the stored form `raw` gives: its lower 24 bits, with the complement
/// of an early series added back.
pub open spec fn card_decoding(raw: int) -> int {
    let c = raw % 0x100_0000;
    let series = c / 65536;
    if series <= 4 {
        c + series * EARLY_SERIES_COMPLEMENT
    } else {
        c
    }
}

/// The big-endian bytes of `x`.
pub open spec fn be_bytes(x: int) -> Seq<u8> {
    seq![
        ((x / 0x100_0000) % 256) as u8,
        ((x / 0x1_0000) % 256) as u8,
        ((x / 256) % 256) as u8,
        (x % 256) as u8,
    ]
}

/// The number that four big-endian bytes spell.
pub open spec fn be_value(b: Seq<u8>) -> int {
    b[0] as int * 0x100_0000 + b[1] as int * 0x1_0000 + b[2] as int * 256 + b[3] as int
}

/// The four bytes of a card number in a record.
pub fn card_to_bytes(card: u32) -> (r: [u8; 4])
    ensures
        r@ == be_bytes(card_encoding(card)),
{
    let series = card / 100000;
    let c: u32 = if series <= 4 {
        card - series * EARLY_SERIES_COMPLEMENT
    } else {
        card
    };
    let r = [(c / 0x100_0000) as u8, ((c / 0x1_0000) % 256) as u8, ((c / 256) % 256) as u8, (c % 256) as u8];
    assert(r@ =~= be_bytes(card_encoding(card)));
    r
}

/// The card number stored in the four bytes `b`.
pub fn card_from_bytes(b: &[u8]) -> (r: u32)
    requires
        b@.len() == 4,
    ensures
        r == card_decoding(be_value(b@)),
{
    let c: u32 = (b[1] as u32) * 0x1_0000 + (b[2] as u32) * 256 + b[3] as u32;
    assert(c == be_value(b@) % 0x100_0000) by (nonlinear_arith)
        requires
            c == b@[1] as int * 0x1_0000 + b@[2] as int * 256 + b@[3] as int,
            be_value(b@) == b@[0] as int * 0x100_0000 + c,
            c < 0x100_0000,
    ;
    let series = c / 65536;
    if series <= 4 {
        c + series * EARLY_SERIES_COMPLEMENT
    } else {
        c
    }
}

/// One step of the SportIdent checksum: the checksum shifted left with the top bit of `val`
/// shifted in, and xor-ed with 0x8005 when its top bit falls out.
pub open spec fn checksum_bit(chk: u16, val: u16) -> u16 {
    let shifted = ((chk as int * 2) % 0x1_0000 + if val >= 0x8000 { 1int } else { 0int }) as u16;
    if chk >= 0x8000 {
        shifted ^ 0x8005u16
    } else {
        shifted
    }
}

/// The checksum after feeding the top `k` bits of `val`.
pub open spec fn checksum_word(chk: u16, val: u16, k: nat) -> u16
    decreases k,
{
    if k == 0 {
        chk
    } else {
        checksum_word(checksum_bit(chk, val), ((val as int * 2) % 0x1_0000) as u16, (k - 1) as nat)
    }
}

/// The big-endian 16-bit word at `i` in `m`.
pub open spec fn word_at(m: Seq<u8>, i: int) -> u16 {
    (m[i] as int * 256 + m[i + 1] as int) as u16
}

/// The checksum after feeding the words of `m` at `i`, `i + 2`, ... before `end`.
pub open spec fn checksum_words(m: Seq<u8>, chk: u16, i: int, end: int) -> u16
    decreases end + 1 - i,
{
    if i >= end {
        chk
    } else {
        checksum_words(m, checksum_word(chk, word_at(m, i), 16), i + 2, end)
    }
}

/// `message` padded with one zero, and one more when that makes its length odd.
pub open spec fn checksum_padded(message: Seq<u8>) -> Seq<u8> {
    if (message.len() + 1) % 2 == 1 {
        message.push(0).push(0)
    } else {
        message.push(0)
    }
}

/// The SportIdent checksum of `message`: its first word, with its later words fed bit by bit.
pub open spec fn sportident_checksum_spec(message: Seq<u8>) -> u16 {
    let m = checksum_padded(message);
    checksum_words(m, word_at(m, 0), 2, message.len() as int)
}

/// The SportIdent checksum.
///
/// SportIdent calls it a CRC, but its algorithm was found by reverse engineering.
#[verifier::spinoff_prover]
pub fn sportident_checksum(message: &[u8]) -> (r: u16)
    requires
        message@.len() <= 19,
        message@.len() % 2 == 0 ==> message@.len() <= 18,
    ensures
        r == sportident_checksum_spec(message@),
{
    let mut msg: Vec<u8> = Vec::new();
    let mut j: usize = 0;
    while j < message.len()
        invariant
            j <= message@.len(),
            msg@ == message@.subrange(0, j as int),
        decreases message@.len() - j,
    {
        msg.push(message[j]);
        j = j + 1;
    }
    assert(msg@ =~= message@);
    msg.push(0);
    if msg.len() % 2 == 1 {
        msg.push(0);
    }
    assert(msg@ =~= checksum_padded(message@));
    let ghost m = msg@;
    let mut chksum: u16 = (msg[0] as u16) * 256 + msg[1] as u16;
    let mut i: usize = 2;
    while i < message.len()
        invariant
            m == msg@,
            m == checksum_padded(message@),
            m.len() >= message@.len() + 1,
            message@.len() <= 19,
            2 <= i,
            i % 2 == 0,
            i <= message@.len() + 2,
            checksum_words(m, word_at(m, 0), 2, message@.len() as int) == checksum_words(
                m,
                chksum,
                i as int,
                message@.len() as int,
            ),
        decreases message@.len() + 2 - i,
    {
        let ghost start = chksum;
        let mut val: u16 = (msg[i] as u16) * 256 + msg[i + 1] as u16;
        assert(val == word_at(m, i as int));
        let mut b: usize = 0;
        while b < 16
            invariant
                b <= 16,
                checksum_word(start, word_at(m, i as int), 16) == checksum_word(
                    chksum,
                    val,
                    (16 - b) as nat,
                ),
            decreases 16 - b,
        {
            let top = val >= 0x8000;
            let next: u16 = if chksum >= 0x8000 {
                let shifted: u16 = ((chksum % 0x8000) * 2 + if top { 1u16 } else { 0u16 });
                shifted ^ 0x8005
            } else {
                (chksum * 2 + if top { 1u16 } else { 0u16 })
            };
            assert(next == checksum_bit(chksum, val));
            chksum = next;
            val = (val % 0x8000) * 2;
            b = b + 1;
        }
        i = i + 2;
    }
    chksum
}

/// The 20-byte record of a punch.
pub open spec fn punch_bytes_spec(card: u32, code: u16, time: LocalDateTime, mode: u8) -> Seq<
    u8,
> {
    let front = header() + seq![(code / 256) as u8, (code % 256) as u8] + be_bytes(
        card_encoding(card),
    ) + time_to_bytes_spec(time) + seq![mode, 0u8, 1u8];
    let chk = sportident_checksum_spec(front.subrange(2, 17));
    front + seq![(chk / 256) as u8, (chk % 256) as u8, FOOTER]
}

/// Writes the 20-byte record of a punch: header, code, card, time, mode, the "send last punch"
/// setting (0, 1), checksum of bytes 2 to 16, footer.
pub fn punch_to_bytes(card: u32, code: u16, time: LocalDateTime, mode: u8) -> (r: [u8; 20])
    requires
        time.secs < 86400,
        time.nanos < 1_000_000_000,
    ensures
        r@ == punch_bytes_spec(card, code, time, mode),
{
    let c = card_to_bytes(card);
    let t = time_to_bytes(time);
    let body = [0xd3u8, 0x0d, (code / 256) as u8, (code % 256) as u8, c[0], c[1], c[2], c[3], t[0], t[1], t[2], t[3], mode, 0, 1];
    let chk = sportident_checksum(body.as_slice());
    let r = [
        0xffu8,
        0x02,
        0xd3,
        0x0d,
        (code / 256) as u8,
        (code % 256) as u8,
        c[0],
        c[1],
        c[2],
        c[3],
        t[0],
        t[1],
        t[2],
        t[3],
        mode,
        0,
        1,
        (chk / 256) as u8,
        (chk % 256) as u8,
        FOOTER,
    ];
    proof {
        let front = header() + seq![(code / 256) as u8, (code % 256) as u8] + be_bytes(
            card_encoding(card),
        ) + time_to_bytes_spec(time) + seq![mode, 0u8, 1u8];
        assert(body@ =~= front.subrange(2, 17));
        assert(r@ =~= punch_bytes_spec(card, code, time, mode));
    }
    r
}

/// The seconds of the time bytes of a record are those of a day.
pub open spec fn raw_time_ok(raw: Seq<u8>) -> bool {
    record_seconds(raw.subrange(10, 14)) < 86400
}

/// Whether the time bytes of a record hold the seconds of a day, as `SiPunch::from_raw` needs.
pub fn raw_time_valid(bytes: &[u8; 20]) -> (r: bool)
    ensures
        r == raw_time_ok(bytes@),
{
    let seconds: u32 = (bytes[10] % 2) as u32 * HALF_DAY_SECS + bytes[11] as u32 * 256 + bytes[12] as u32;
    proof {
        assert(bytes@.subrange(10, 14)[0] == bytes@[10]);
        assert(bytes@.subrange(10, 14)[1] == bytes@[11]);
        assert(bytes@.subrange(10, 14)[2] == bytes@[12]);
    }
    seconds < 86400
}

/// The punch that the record `raw` gives.
pub open spec fn from_raw_spec(raw: Seq<u8>, today: i32, offset: i32) -> (u32, u16, LocalDateTime, u8) {
    (
        card_decoding(be_value(raw.subrange(6, 10))) as u32,
        ((raw[4] % 2) as int * 256 + raw[5] as int) as u16,
        bytes_to_datetime_spec(raw.subrange(10, 14), today),
        raw[14] % 16,
    )
}

/// Where the first record of `raw` is, and where the rest of the stream begins: after the first
/// header when 20 bytes follow it from its start, or 19 (the footer is then added); when no
/// header is found, a stream that begins with the header without its first byte gets it back.
pub open spec fn find_punch_spec(raw: Seq<u8>) -> Option<(Seq<u8>, int)> {
    match find_from(raw, header(), 0) {
        Some(p) => if p + 20 <= raw.len() {
            Some((raw.subrange(p, p + 20), p + 20))
        } else if p + 20 == raw.len() + 1 {
            Some((raw.subrange(p, raw.len() as int).push(FOOTER), p + 19))
        } else {
            None
        },
        None => if raw.len() >= 19 && raw.subrange(0, 3) == header().subrange(1, 4) {
            Some((seq![0xffu8] + raw.subrange(0, 19), 19))
        } else {
            None
        },
    }
}

/// Finds the position of the first record header in `raw`.
fn find_header(raw: &[u8]) -> (r: Option<usize>)
    ensures
        r matches Some(p) ==> find_from(raw@, header(), 0) == Some(p as int),
        r is None <==> find_from(raw@, header(), 0) is None,
{
    let n = raw.len();
    let mut i: usize = 0;
    while n >= 4 && i <= n - 4
        invariant
            n == raw@.len(),
            forall|j: int| 0 <= j < i ==> !crate::text::occurs_at(raw@, header(), j),
        decreases n - i,
    {
        if raw[i] == 0xff && raw[i + 1] == 0x02 && raw[i + 2] == 0xd3 && raw[i + 3] == 0x0d {
            proof {
                assert(raw@.subrange(i as int, i + 4) =~= header());
                assert(first_occurrence(raw@, header(), 0, i as int));
                lemma_find_from(raw@, header(), 0);
                lemma_first_occurrence_unique(raw@, header(), 0, i as int, find_from(raw@, header(), 0)->0);
            }
            return Some(i);
        }
        proof {
            if crate::text::occurs_at(raw@, header(), i as int) {
                assert(raw@.subrange(i as int, i + 4)[0] == raw@[i as int]);
                assert(raw@.subrange(i as int, i + 4)[1] == raw@[i + 1]);
                assert(raw@.subrange(i as int, i + 4)[2] == raw@[i + 2]);
                assert(raw@.subrange(i as int, i + 4)[3] == raw@[i + 3]);
            }
        }
        i = i + 1;
    }
    proof {
        lemma_find_from(raw@, header(), 0);
        if find_from(raw@, header(), 0) is Some {
            let k = find_from(raw@, header(), 0)->0;
            assert(crate::text::occurs_at(raw@, header(), k));
        }
    }
    None
}

/// A record whose header was found in `raw`, but not its footer: the bytes from `p` on, and the
/// footer.
fn record_with_footer(raw: &[u8], p: usize) -> (r: [u8; 20])
    requires
        p + 19 == raw@.len(),
    ensures
        r@ == raw@.subrange(p as int, raw@.len() as int).push(FOOTER),
{
    let n = raw.len();
    let mut res: [u8; 20] = [0u8; 20];
    let mut k: usize = 0;
    while k < 19
        invariant
            n == raw@.len(),
            p + 19 == raw@.len(),
            k <= 19,
            forall|j: int| 0 <= j < k ==> res@[j] == raw@[p + j],
        decreases 19 - k,
    {
        res[k] = raw[p + k];
        k = k + 1;
    }
    res[19] = FOOTER;
    assert(res@ =~= raw@.subrange(p as int, raw@.len() as int).push(FOOTER));
    res
}

/// The 20 bytes of `raw` from `p` on.
fn record_at(raw: &[u8], p: usize) -> (r: [u8; 20])
    requires
        p + 20 <= raw@.len(),
    ensures
        r@ == raw@.subrange(p as int, p + 20),
{
    let n = raw.len();
    let mut res: [u8; 20] = [0u8; 20];
    let mut k: usize = 0;
    while k < 20
        invariant
            n == raw@.len(),
            p + 20 <= raw@.len(),
            k <= 20,
            forall|j: int| 0 <= j < k ==> res@[j] == raw@[p + j],
        decreases 20 - k,
    {
        res[k] = raw[p + k];
        k = k + 1;
    }
    assert(res@ =~= raw@.subrange(p as int, p + 20));
    res
}

impl SiPunch {
    /// A punch, with its record.
    pub fn new(card: u32, code: u16, time: DateTimeOffset, mode: u8) -> (r: SiPunch)
        requires
            time.local.secs < 86400,
            time.local.nanos < 1_000_000_000,
        ensures
            r.card == card,
            r.code == code,
            r.time == time,
            r.mode == mode,
            r.raw@ == punch_bytes_spec(card, code, time.local, mode),
    {
        SiPunch { card, code, time, mode, raw: punch_to_bytes(card, code, time.local, mode) }
    }

    /// The punch that a 20-byte record gives, its date being the last one up to `today` with
    /// the weekday of the record, and its offset `offset`.
    pub fn from_raw(bytes: [u8; 20], today: i32, offset: i32) -> (r: SiPunch)
        requires
            raw_time_ok(bytes@),
            today as int - 6 >= i32::MIN,
        ensures
            (r.card, r.code, r.time.local, r.mode) == from_raw_spec(bytes@, today, offset),
            r.time.offset == offset,
            r.raw == bytes,
    {
        let code: u16 = (bytes[4] % 2) as u16 * 256 + bytes[5] as u16;
        let all: &[u8] = bytes.as_slice();
        let card = card_from_bytes(&all[6..10]);
        let local = bytes_to_datetime(&all[10..14], today);
        let mode = bytes[14] % 16;
        SiPunch { card, code, time: DateTimeOffset { local, offset }, mode, raw: bytes }
    }

    /// Finds the first record in a byte stream, and the rest of the stream after it.
    ///
    /// A record begins at the first header; when its footer is missing at the end of the
    /// stream, it is added. When no header is found but the stream begins with the header
    /// without its first byte, the record is read from there.
    pub fn find_punch_data(raw: &[u8]) -> (r: Option<([u8; 20], &[u8])>)
        ensures
            match find_punch_spec(raw@) {
                None => r is None,
                Some((p, rest)) => r matches Some((q, tail)) && q@ == p && tail@ == raw@.subrange(
                    rest,
                    raw@.len() as int,
                ),
            },
        decreases if find_from(raw@, header(), 0) is Some {
            0int
        } else {
            1int
        },
    {
        match find_header(raw) {
            Some(position) => {
                proof {
                    lemma_find_from(raw@, header(), 0);
                }
                let n = raw.len();
                if n - position >= LEN {
                    Some((record_at(raw, position), &raw[position + LEN..n]))
                } else if n - position == LEN - 1 {
                    Some((record_with_footer(raw, position), &raw[position + (LEN - 1)..n]))
                } else {
                    None
                }
            },
            None => {
                if raw.len() >= LEN - 1 && raw[0] == 0x02 && raw[1] == 0xd3 && raw[2] == 0x0d {
                    let mut new_raw: [u8; 20] = [0u8; 20];
                    new_raw[0] = 0xff;
                    let mut k: usize = 0;
                    while k < 19
                        invariant
                            raw@.len() >= 19,
                            k <= 19,
                            new_raw@[0] == 0xff,
                            forall|j: int| 0 <= j < k ==> new_raw@[j + 1] == raw@[j],
                        decreases 19 - k,
                    {
                        new_raw[k + 1] = raw[k];
                        k = k + 1;
                    }
                    proof {
                        assert(new_raw@ =~= seq![0xffu8] + raw@.subrange(0, 19));
                        assert(raw@.subrange(0, 3) =~= header().subrange(1, 4));
                        assert(new_raw@.subrange(0, 4) =~= header());
                        assert(first_occurrence(new_raw@, header(), 0, 0));
                        lemma_find_from(new_raw@, header(), 0);
                        lemma_first_occurrence_unique(new_raw@, header(), 0, 0, find_from(new_raw@, header(), 0)->0);
                    }
                    let whole: &[u8] = new_raw.as_slice();
                    match Self::find_punch_data(whole) {
                        Some((punch, _)) => Some((punch, &raw[LEN - 1..raw.len()])),
                        None => None,
                    }
                } else {
                    proof {
                        if raw@.len() >= 19 && raw@.subrange(0, 3) == header().subrange(1, 4) {
                            assert(raw@.subrange(0, 3)[0] == raw@[0]);
                            assert(raw@.subrange(0, 3)[1] == raw@[1]);
                            assert(raw@.subrange(0, 3)[2] == raw@[2]);
                        }
                    }
                    None
                }
            },
        }
    }
}

/// The bytes of a number below 2^32, read back, give the number.
proof fn lemma_be_round_trip(x: u32)
    ensures
        be_value(be_bytes(x as int)) == x,
{
    assert(((x / 0x100_0000) % 256) * 0x100_0000 + ((x / 0x1_0000) % 256) * 0x1_0000 + ((x / 256)
        % 256) * 256 + x % 256 == x) by (bit_vector);
}

/// Stepping back from `today` to the last day with the weekday of `date` lands on `date`, when
/// `date` is within the six days before `today`.
proof fn lemma_days_back(today: i32, date: i32)
    requires
        0 <= today - date <= 6,
    ensures
        days_back(weekday_spec(date), today) == today - date,
{
    let t = today as int;
    let d = date as int;
    lemma_fundamental_div_mod(t, 7);
    lemma_fundamental_div_mod(d, 7);
    let q1 = t / 7;
    let q2 = d / 7;
    assert(t - d == 7 * (q1 - q2) + (t % 7 - d % 7));
    if q1 - q2 == 0 {
        lemma_fundamental_div_mod_converse(t % 7 + 7 - d % 7, 7, 1, t - d);
    } else {
        assert(q1 - q2 == 1);
        lemma_fundamental_div_mod_converse(t % 7 + 7 - d % 7, 7, 0, t - d);
    }
}

/// The card number comes back from its stored form, for card numbers below 2^24 whose last
/// five digits stay below 65536 in the first four series.
pub proof fn lemma_card_round_trip(card: u32)
    requires
        card < 0x100_0000,
        card < 500000 ==> card % 100000 < 65536,
    ensures
        card_decoding(be_value(be_bytes(card_encoding(card)))) == card,
{
    let e = card_encoding(card);
    let s = card / 100000;
    lemma_fundamental_div_mod(card as int, 100000);
    assert(0 <= e <= card);
    lemma_be_round_trip(e as u32);
    lemma_fundamental_div_mod_converse(e, 0x100_0000, 0, e);
    if s <= 4 {
        lemma_fundamental_div_mod_converse(e, 65536, s as int, card as int % 100000);
    } else {
        assert(e / 65536 >= 7) by {
            lemma_fundamental_div_mod(e, 65536);
            lemma_mod_pos_bound(e, 65536);
        }
    }
}

/// A local time comes back from its four record bytes, with its nanoseconds cut to 1/256 s,
/// when its date is within the six days before `today`.
pub proof fn lemma_time_round_trip(time: LocalDateTime, today: i32)
    requires
        time.secs < 86400,
        time.nanos < 1_000_000_000,
        0 <= today - time.date <= 6,
    ensures
        record_seconds(time_to_bytes_spec(time)) == time.secs,
        bytes_to_datetime_spec(time_to_bytes_spec(time), today) == (LocalDateTime {
            date: time.date,
            secs: time.secs,
            nanos: (time.nanos - time.nanos % BILLION_BY_256) as u32,
        }),
{
    let b = time_to_bytes_spec(time);
    let wd = weekday_spec(time.date);
    let pm = time.secs >= HALF_DAY_SECS;
    let sec = if pm {
        time.secs - HALF_DAY_SECS
    } else {
        time.secs as int
    };
    lemma_fundamental_div_mod(sec, 256);
    lemma_mod_pos_bound(sec, 256);
    assert(b[0] % 16 == b[0]);
    assert((b[0] % 16) / 2 == wd);
    assert(record_seconds(b) == time.secs);
    lemma_days_back(today, time.date);
    lemma_fundamental_div_mod(time.nanos as int, BILLION_BY_256 as int);
}

/// A punch comes back from its record: card, code, mode and time (with nanoseconds cut to
/// 1/256 s), for codes below 512, modes below 16, card numbers as in `lemma_card_round_trip`,
/// and a date within the six days before `today`.
pub proof fn lemma_punch_round_trip(
    card: u32,
    code: u16,
    time: LocalDateTime,
    mode: u8,
    today: i32,
    offset: i32,
)
    requires
        card < 0x100_0000,
        card < 500000 ==> card % 100000 < 65536,
        code < 512,
        mode < 16,
        time.secs < 86400,
        time.nanos < 1_000_000_000,
        0 <= today - time.date <= 6,
    ensures
        raw_time_ok(punch_bytes_spec(card, code, time, mode)),
        from_raw_spec(punch_bytes_spec(card, code, time, mode), today, offset) == (
            card,
            code,
            LocalDateTime {
                date: time.date,
                secs: time.secs,
                nanos: (time.nanos - time.nanos % BILLION_BY_256) as u32,
            },
            mode,
        ),
{
    let raw = punch_bytes_spec(card, code, time, mode);
    let e = card_encoding(card);
    assert(raw.subrange(6, 10) =~= be_bytes(e));
    assert(raw.subrange(10, 14) =~= time_to_bytes_spec(time));
    lemma_card_round_trip(card);
    lemma_time_round_trip(time, today);
    assert(raw[4] == (code / 256) as u8);
    assert(raw[5] == (code % 256) as u8);
    assert(raw[14] == mode);
}

/// A punch comes back from its own record, read with the date and offset of the punch, for every
/// date that `chrono` can hold (so `from_raw` can take that date): card, code, time and mode,
/// for a time that is a whole number of 1/256 s, codes below 512, modes below 16 and card
/// numbers as in `lemma_card_round_trip`.
pub proof fn lemma_si_punch_round_trip(card: u32, code: u16, time: DateTimeOffset, mode: u8)
    requires
        card < 0x100_0000,
        card < 500000 ==> card % 100000 < 65536,
        code < 512,
        mode < 16,
        time.local.secs < 86400,
        time.local.nanos < 1_000_000_000,
        time.local.nanos % BILLION_BY_256 == 0,
        days_from_ce(min_year(), 1, 1) <= time.local.date,
    ensures
        raw_time_ok(punch_bytes_spec(card, code, time.local, mode)),
        time.local.date as int - 6 >= i32::MIN,
        from_raw_spec(punch_bytes_spec(card, code, time.local, mode), time.local.date, time.offset)
            == (card, code, time.local, mode),
{
    assert(days_from_ce(min_year(), 1, 1) > -100_000_000);
    lemma_punch_round_trip(card, code, time.local, mode, time.local.date, time.offset);
    assert((time.local.nanos - time.local.nanos % BILLION_BY_256) as u32 == time.local.nanos);
}

/// The record of a punch is found at the start of itself, with nothing after it.
pub proof fn lemma_find_encoded_punch(card: u32, code: u16, time: LocalDateTime, mode: u8)
    ensures
        find_punch_spec(punch_bytes_spec(card, code, time, mode)) == Some(
            (punch_bytes_spec(card, code, time, mode), 20int),
        ),
{
    let raw = punch_bytes_spec(card, code, time, mode);
    assert(raw.len() == 20);
    assert(raw.subrange(0, 4) =~= header());
    assert(first_occurrence(raw, header(), 0, 0));
    lemma_find_from(raw, header(), 0);
    lemma_first_occurrence_unique(raw, header(), 0, 0, find_from(raw, header(), 0)->0);
    assert(raw.subrange(0, 20) =~= raw);
}

/// The number of 20-byte chunks, the last one possibly shorter, of `len` bytes.
pub open spec fn chunk_count(len: int) -> int {
    (len + 19) / 20
}

/// The `k`-th 20-byte chunk of `tail`; the last one may be shorter.
pub open spec fn chunk(tail: Seq<u8>, k: int) -> Seq<u8> {
    tail.subrange(20 * k, if 20 * k + 20 <= tail.len() { 20 * k + 20 } else { tail.len() as int })
}

/// The punch that `r` holds was read from the record `raw`, with the given date and offset.
pub open spec fn punch_read_from(r: SiPunch, raw: Seq<u8>, today: i32, offset: i32) -> bool {
    &&& (r.card, r.code, r.time.local, r.mode) == from_raw_spec(raw, today, offset)
    &&& r.time.offset == offset
    &&& r.raw@ == raw
}

/// Reading the punches of a payload cannot fail on the way: the records that are read have the
/// seconds of a day, and the results fit in `n`.
pub open spec fn payload_ok(payload: Seq<u8>, n: int) -> bool {
    match find_punch_spec(payload) {
        None => n >= 1,
        Some((p, rest)) => {
            let tail = payload.subrange(rest, payload.len() as int);
            &&& raw_time_ok(p)
            &&& 1 + chunk_count(tail.len() as int) <= n
            &&& forall|k: int| 0 <= k < chunk_count(tail.len() as int) && #[trigger] chunk(tail, k).len() == 20
                ==> raw_time_ok(chunk(tail, k))
        },
    }
}

impl SiPunch {
    /// Reads the punches of a payload: the first record that `find_punch_data` finds, then the
    /// rest of the payload in 20-byte chunks; a shorter last chunk gives `BufferTooSmallError`.
    /// A payload with no record gives a single `ValueError`. At most `N` results are made.
    pub fn punches_from_payload<const N: usize>(payload: &[u8], today: i32, offset: i32) -> (r: Vec<
        Result<SiPunch, Error>,
    >)
        requires
            payload_ok(payload@, N as int),
            today as int - 6 >= i32::MIN,
        ensures
            match find_punch_spec(payload@) {
                None => r@ == seq![Err::<SiPunch, Error>(Error::ValueError)],
                Some((p, rest)) => {
                    let tail = payload@.subrange(rest, payload@.len() as int);
                    &&& r@.len() == 1 + chunk_count(tail.len() as int)
                    &&& r@[0] matches Ok(q) && punch_read_from(q, p, today, offset)
                    &&& forall|k: int|
                        0 <= k < chunk_count(tail.len() as int) ==> if #[trigger] chunk(tail, k).len()
                            == 20 {
                            r@[k + 1] matches Ok(q) && punch_read_from(q, chunk(tail, k), today, offset)
                        } else {
                            r@[k + 1] == Err::<SiPunch, Error>(Error::BufferTooSmallError)
                        }
                },
            },
    {
        let mut res: Vec<Result<SiPunch, Error>> = Vec::new();
        match Self::find_punch_data(payload) {
            None => {
                res.push(Err(Error::ValueError));
                assert(res@ =~= seq![Err::<SiPunch, Error>(Error::ValueError)]);
                res
            },
            Some((punch, rest)) => {
                let ghost tail = rest@;
                res.push(Ok(Self::from_raw(punch, today, offset)));
                let n = rest.len();
                let mut start: usize = 0;
                let mut k: usize = 0;
                while start < n
                    invariant
                        n == tail.len(),
                        rest@ == tail,
                        start <= n,
                        start < n ==> start == 20 * k,
                        k <= chunk_count(n as int),
                        start < n ==> k < chunk_count(n as int),
                        start == n ==> k == chunk_count(n as int),
                        res@.len() == 1 + k,
                        res@[0] matches Ok(q) && punch_read_from(q, punch@, today, offset),
                        forall|j: int| 0 <= j < chunk_count(n as int) && #[trigger] chunk(tail, j).len() == 20
                            ==> raw_time_ok(chunk(tail, j)),
                        forall|j: int|
                            0 <= j < k ==> if #[trigger] chunk(tail, j).len() == 20 {
                                res@[j + 1] matches Ok(q) && punch_read_from(q, chunk(tail, j), today, offset)
                            } else {
                                res@[j + 1] == Err::<SiPunch, Error>(Error::BufferTooSmallError)
                            },
                        today as int - 6 >= i32::MIN,
                    decreases n - start,
                {
                    let ghost before = res@;
                    let next: usize;
                    if n - start >= LEN {
                        let part = record_at(rest, start);
                        assert(part@ =~= chunk(tail, k as int));
                        res.push(Ok(Self::from_raw(part, today, offset)));
                        next = start + LEN;
                    } else {
                        assert(chunk(tail, k as int).len() == n - start);
                        res.push(Err(Error::BufferTooSmallError));
                        next = n;
                    }
                    proof {
                        assert forall|j: int|
                            0 <= j < k + 1 implies if #[trigger] chunk(tail, j).len() == 20 {
                                res@[j + 1] matches Ok(q) && punch_read_from(q, chunk(tail, j), today, offset)
                            } else {
                                res@[j + 1] == Err::<SiPunch, Error>(Error::BufferTooSmallError)
                            } by {
                            if j < k {
                                assert(res@[j + 1] == before[j + 1]);
                            }
                        }
                    }
                    start = next;
                    k = k + 1;
                }
                res
            },
        }
    }
}

} // verus!
