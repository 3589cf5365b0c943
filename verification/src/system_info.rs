//! System information read from the modem: its clock and the cellular signal.
use vstd::prelude::*;
use vstd::string::*;
use vstd::utf8::{encode_utf8, is_char_boundary};

use crate::at::{AtError, AtResponse, AtString, AtValue};
use crate::error::Error;
use crate::modem::{is_call, registration_error_of, Action, ModemAction, RegistrationError};
use crate::punch::{DateTimeOffset, LocalDateTime};
use crate::text::{
    byte_range, byte_substr, chars_of, parse_signed, parse_signed_chars, parse_unsigned,
    parse_unsigned_chars, str_eq, utf8_len,
};

verus! {

/// The earliest and the latest year of a `chrono` date.
pub open spec fn min_year() -> int {
    -262143
}

pub open spec fn max_year() -> int {
    262142
}

/// Whether `year` is a leap year of the proleptic Gregorian calendar.
pub open spec fn is_leap_year(year: int) -> bool {
    year % 4 == 0 && (year % 100 != 0 || year % 400 == 0)
}

/// The number of days of `month` in `year`.
pub open spec fn month_days(year: int, month: int) -> int {
    if month == 2 {
        if is_leap_year(year) {
            29
        } else {
            28
        }
    } else if month == 4 || month == 6 || month == 9 || month == 11 {
        30
    } else {
        31
    }
}

/// The number of days of `year` before the first day of `month`.
pub open spec fn days_before_month(year: int, month: int) -> int
    decreases month,
{
    if month <= 1 {
        0
    } else {
        days_before_month(year, month - 1) + month_days(year, month - 1)
    }
}

/// The date exists in the range of `chrono` dates.
pub open spec fn valid_ymd(year: int, month: int, day: int) -> bool {
    min_year() <= year <= max_year() && 1 <= month <= 12 && 1 <= day <= month_days(year, month)
}

/// The day count of the proleptic Gregorian calendar on which 0001-01-01 is day 1.
pub open spec fn days_from_ce(year: int, month: int, day: int) -> int {
    let y = year - 1;
    365 * y + y / 4 - y / 100 + y / 400 + days_before_month(year, month) + day
}

/// `chrono::NaiveDate::from_ymd_opt` followed by `Datelike::num_days_from_ce`: the date is made
/// when it exists and its year is in the range of `chrono` dates, and counted in days of the
/// proleptic Gregorian calendar from 0001-01-01, which is day 1.
#[verifier::external_body]
fn date_from_ymd(year: i32, month: u32, day: u32) -> (r: Option<i32>)
    ensures
        r == if valid_ymd(year as int, month as int, day as int) {
            Some(days_from_ce(year as int, month as int, day as int) as i32)
        } else {
            None::<i32>
        },
{
    match chrono::NaiveDate::from_ymd_opt(year, month, day) {
        Some(date) => Some(chrono::Datelike::num_days_from_ce(&date)),
        None => None,
    }
}

/// Every well-formed clock parses: when the fields of `YYYY/MM/DD,HH:MM:SS+ZZ` read as a date
/// of the `chrono` range, a time of day and `ZZ` quarter hours below a day (`ZZ < 96`), the
/// result is that date, the seconds since midnight, and an offset of `ZZ * 900` seconds east.
pub proof fn lemma_clock_parses(
    s: Seq<char>,
    year: int,
    month: nat,
    day: nat,
    hour: nat,
    min: nat,
    sec: nat,
    quarters: nat,
)
    requires
        encode_utf8(s).len() >= 22,
        parse_signed(field(s, 0, 4), 0x7fff_ffff) == Some(year),
        parse_unsigned(field(s, 5, 7), 10, 0xffff_ffff) == Some(month),
        parse_unsigned(field(s, 8, 10), 10, 0xffff_ffff) == Some(day),
        parse_unsigned(field(s, 11, 13), 10, 0xffff_ffff) == Some(hour),
        parse_unsigned(field(s, 14, 16), 10, 0xffff_ffff) == Some(min),
        parse_unsigned(field(s, 17, 19), 10, 0xffff_ffff) == Some(sec),
        parse_unsigned(field(s, 20, 22), 10, 0xff) == Some(quarters),
        valid_ymd(year, month as int, day as int),
        hour < 24,
        min < 60,
        sec < 60,
        quarters < 96,
    ensures
        parse_qlts_spec(s) == Ok::<DateTimeOffset, Error>(
            DateTimeOffset {
                local: LocalDateTime {
                    date: days_from_ce(year, month as int, day as int) as i32,
                    secs: (hour * 3600 + min * 60 + sec) as u32,
                    nanos: 0,
                },
                offset: (quarters * 900) as i32,
            },
        ),
{
    assert(year as i32 as int == year);
    assert(month as u32 as int == month);
    assert(day as u32 as int == day);
}

/// The byte positions at which `parse_qlts` cuts its input.
pub open spec fn qlts_cuts() -> Seq<int> {
    seq![0, 4, 5, 7, 8, 10, 11, 13, 14, 16, 17, 19, 20, 22]
}

/// Cutting a clock string at the `qlts_cuts` cuts no character.
pub open spec fn qlts_sliceable(s: Seq<char>) -> bool {
    encode_utf8(s).len() >= 22 ==> forall|k: int|
        0 <= k < qlts_cuts().len() ==> is_char_boundary(encode_utf8(s), #[trigger] qlts_cuts()[k])
}

/// The field of a clock string at bytes `a..b`.
pub open spec fn field(s: Seq<char>, a: int, b: int) -> Seq<char> {
    byte_range(s, a, b)
}

/// The date and time that a `+QLTS` clock `YYYY/MM/DD,HH:MM:SS+ZZ...` gives, its offset being
/// `ZZ` quarters of an hour east of UTC; any field that does not parse or does not exist gives
/// `ParseError`.
pub open spec fn parse_qlts_spec(s: Seq<char>) -> Result<DateTimeOffset, Error> {
    if encode_utf8(s).len() < 22 {
        Err(Error::ParseError)
    } else {
        let year = parse_signed(field(s, 0, 4), 0x7fff_ffff);
        let month = parse_unsigned(field(s, 5, 7), 10, 0xffff_ffff);
        let day = parse_unsigned(field(s, 8, 10), 10, 0xffff_ffff);
        let hour = parse_unsigned(field(s, 11, 13), 10, 0xffff_ffff);
        let min = parse_unsigned(field(s, 14, 16), 10, 0xffff_ffff);
        let sec = parse_unsigned(field(s, 17, 19), 10, 0xffff_ffff);
        let offset = parse_unsigned(field(s, 20, 22), 10, 0xff);
        if year is None || month is None || day is None || hour is None || min is None || sec is None
            || offset is None {
            Err(Error::ParseError)
        } else {
            let (y, m, d) = (year->0 as i32 as int, month->0 as u32 as int, day->0 as u32 as int);
            match if valid_ymd(y, m, d) { Some(days_from_ce(y, m, d) as i32) } else { None::<i32> } {
                None => Err(Error::ParseError),
                Some(date) => if hour->0 < 24 && min->0 < 60 && sec->0 < 60 && offset->0 * 900 < 86400 {
                    Ok(
                        DateTimeOffset {
                            local: LocalDateTime {
                                date,
                                secs: (hour->0 * 3600 + min->0 * 60 + sec->0) as u32,
                                nanos: 0,
                            },
                            offset: (offset->0 * 900) as i32,
                        },
                    )
                } else {
                    Err(Error::ParseError)
                },
            }
        }
    }
}

fn field_of(s: &str, a: usize, b: usize) -> (r: Vec<char>)
    requires
        a <= b <= encode_utf8(s@).len(),
        is_char_boundary(encode_utf8(s@), a as int),
        is_char_boundary(encode_utf8(s@), b as int),
    ensures
        r@ == field(s@, a as int, b as int),
{
    chars_of(byte_substr(s, a, b))
}

/// Parses the clock of the modem, as `AT+QLTS=2` reports it: `YYYY/MM/DD,HH:MM:SS+ZZ,D`.
pub fn parse_qlts(modem_clock: &str) -> (r: Result<DateTimeOffset, Error>)
    requires
        qlts_sliceable(modem_clock@),
    ensures
        r == parse_qlts_spec(modem_clock@),
{
    let n = utf8_len(modem_clock);
    if n < 22 {
        return Err(Error::ParseError);
    }
    proof {
        let c = qlts_cuts();
        assert(is_char_boundary(encode_utf8(modem_clock@), c[0]));
        assert(is_char_boundary(encode_utf8(modem_clock@), c[1]));
        assert(is_char_boundary(encode_utf8(modem_clock@), c[2]));
        assert(is_char_boundary(encode_utf8(modem_clock@), c[3]));
        assert(is_char_boundary(encode_utf8(modem_clock@), c[4]));
        assert(is_char_boundary(encode_utf8(modem_clock@), c[5]));
        assert(is_char_boundary(encode_utf8(modem_clock@), c[6]));
        assert(is_char_boundary(encode_utf8(modem_clock@), c[7]));
        assert(is_char_boundary(encode_utf8(modem_clock@), c[8]));
        assert(is_char_boundary(encode_utf8(modem_clock@), c[9]));
        assert(is_char_boundary(encode_utf8(modem_clock@), c[10]));
        assert(is_char_boundary(encode_utf8(modem_clock@), c[11]));
        assert(is_char_boundary(encode_utf8(modem_clock@), c[12]));
        assert(is_char_boundary(encode_utf8(modem_clock@), c[13]));
    }
    let year = parse_signed_chars(&field_of(modem_clock, 0, 4), 0x7fff_ffff);
    let month = parse_unsigned_chars(&field_of(modem_clock, 5, 7), 10, 0xffff_ffff);
    let day = parse_unsigned_chars(&field_of(modem_clock, 8, 10), 10, 0xffff_ffff);
    let hour = parse_unsigned_chars(&field_of(modem_clock, 11, 13), 10, 0xffff_ffff);
    let min = parse_unsigned_chars(&field_of(modem_clock, 14, 16), 10, 0xffff_ffff);
    let sec = parse_unsigned_chars(&field_of(modem_clock, 17, 19), 10, 0xffff_ffff);
    let offset = parse_unsigned_chars(&field_of(modem_clock, 20, 22), 10, 0xff);
    match (year, month, day, hour, min, sec, offset) {
        (Some(y), Some(mo), Some(d), Some(h), Some(mi), Some(s), Some(o)) => {
            match date_from_ymd(y as i32, mo as u32, d as u32) {
                None => Err(Error::ParseError),
                Some(date) => {
                    if h < 24 && mi < 60 && s < 60 && o * 900 < 86400 {
                        Ok(
                            DateTimeOffset {
                                local: LocalDateTime {
                                    date,
                                    secs: (h * 3600 + mi * 60 + s) as u32,
                                    nanos: 0,
                                },
                                offset: (o * 900) as i32,
                            },
                        )
                    } else {
                        Err(Error::ParseError)
                    }
                },
            }
        },
        _ => Err(Error::ParseError),
    }
}

/// The kind of cellular network.
#[derive(Debug, Clone, Copy, PartialEq, Eq, Structural)]
pub enum CellNetworkType {
    Unknown,
    /// NB-IoT, extended coverage level 0.
    NbIotEcl0,
    /// NB-IoT, extended coverage level 1.
    NbIotEcl1,
    /// NB-IoT, extended coverage level 2.
    NbIotEcl2,
    LteM,
    Umts,
    Lte,
}

impl Default for CellNetworkType {
    fn default() -> (r: CellNetworkType)
        ensures
            r == CellNetworkType::Unknown,
    {
        CellNetworkType::Unknown
    }
}

/// The cellular signal.
#[derive(Debug, Clone, Copy, PartialEq, Eq, Structural)]
pub struct CellSignalInfo {
    pub network_type: CellNetworkType,
    /// Reference signal received power in dBm.
    pub rsrp_dbm: i16,
    /// Signal to noise ratio in centibels.
    pub snr_cb: i16,
    /// The cell ID.
    pub cellid: Option<u32>,
}

/// Where reading the cellular signal stands.
#[derive(Debug, Clone, Copy, PartialEq, Eq, Structural)]
pub enum SignalState {
    Start,
    /// `+QCSQ` was sent.
    Quality,
    /// The coverage level was asked, for NB-IoT.
    CoverageLevel,
    /// `+CEREG?` was sent.
    CellId,
    Done,
}

/// Reading the cellular signal: quality (`+QCSQ`), the coverage level on NB-IoT, and the cell.
#[derive(Debug, Clone, Copy, PartialEq, Eq)]
pub struct SignalQuery {
    pub state: SignalState,
    /// The signal read so far.
    pub info: CellSignalInfo,
    /// The result, once known.
    pub result: Option<Result<CellSignalInfo, RegistrationError>>,
}

/// The value at `i` of the chosen response of `resp`.
pub open spec fn qcsq_values(resp: AtResponse) -> Seq<Seq<char>> {
    resp.picked(None::<(u8, usize)>, seq![0usize, 2usize, 3usize, 4usize])->Ok_0
}

/// The answer to `+QCSQ` can be read: the first response to `+QCSQ` and its values.
pub open spec fn qcsq_ok(resp: AtResponse) -> bool {
    &&& resp.response_ok(None::<(u8, usize)>)
    &&& resp.response_spec(None::<(u8, usize)>) matches Ok(c) ==> c.has_values()
    &&& resp.pick_ok(None::<(AtString<10>, usize)>, seq![0usize, 2usize, 3usize, 4usize])
}

/// What the answer to `+QCSQ` gives: an error, or whether the network is NB-IoT, the RSRP and
/// the SNR in centibels (twice the reported value, less 200).
pub open spec fn qcsq_result(resp: AtResponse) -> Result<(bool, i16, i16), RegistrationError> {
    match resp.response_spec(None::<(u8, usize)>) {
        Err(e) => Err(registration_error_of(e)),
        Ok(c) => if c.values_spec().len() != 5 {
            Err(RegistrationError::NoNetworkService)
        } else {
            match resp.picked(None::<(AtString<10>, usize)>, seq![0usize, 2usize, 3usize, 4usize]) {
                Err(e) => Err(registration_error_of(e)),
                Ok(w) => if !(encode_utf8(w[0]).len() <= 10 && parse_signed(w[1], 0x7fff) is Some
                    && parse_unsigned(w[2], 10, 0xff) is Some && parse_signed(w[3], 0x7f) is Some) {
                    Err(registration_error_of(AtError::ParseError))
                } else {
                    Ok(
                        (
                            w[0] == "NBIoT"@,
                            (parse_signed(w[1], 0x7fff)->0) as i16,
                            (parse_unsigned(w[2], 10, 0xff)->0 * 2 - 200) as i16,
                        ),
                    )
                },
            }
        },
    }
}

/// The NB-IoT coverage level that the answer to `+QCFG="celevel"` gives (value 1); level 0
/// when it cannot be read or is not 0, 1 or 2.
pub open spec fn celevel_type(reply: Result<AtResponse, AtError>) -> CellNetworkType {
    match reply {
        Err(_) => CellNetworkType::NbIotEcl0,
        Ok(resp) => match resp.picked(None::<(u8, usize)>, seq![1usize]) {
            Err(_) => CellNetworkType::NbIotEcl0,
            Ok(w) => if parse_unsigned(w[0], 10, 0xff) == Some(1nat) {
                CellNetworkType::NbIotEcl1
            } else if parse_unsigned(w[0], 10, 0xff) == Some(2nat) {
                CellNetworkType::NbIotEcl2
            } else {
                CellNetworkType::NbIotEcl0
            },
        },
    }
}

/// The coverage level sets the network type: when value 1 of the answer to `+QCFG="celevel"` is
/// the number `n`, the type is `NbIotEcl0`, `NbIotEcl1` or `NbIotEcl2` for `n` 0, 1 or 2, and
/// `NbIotEcl0` for any other number; an answer that fails, or has no readable value 1, gives
/// `NbIotEcl0`.
pub proof fn lemma_coverage_level(reply: Result<AtResponse, AtError>, w: Seq<Seq<char>>, n: nat)
    ensures
        reply is Err ==> celevel_type(reply) == CellNetworkType::NbIotEcl0,
        reply matches Ok(resp) && resp.picked(None::<(u8, usize)>, seq![1usize]) is Err
            ==> celevel_type(reply) == CellNetworkType::NbIotEcl0,
        reply matches Ok(resp) && resp.picked(None::<(u8, usize)>, seq![1usize]) == Ok::<
            Seq<Seq<char>>,
            AtError,
        >(w) && parse_unsigned(w[0], 10, 0xff) == Some(n) ==> {
            &&& n == 0 ==> celevel_type(reply) == CellNetworkType::NbIotEcl0
            &&& n == 1 ==> celevel_type(reply) == CellNetworkType::NbIotEcl1
            &&& n == 2 ==> celevel_type(reply) == CellNetworkType::NbIotEcl2
            &&& n > 2 ==> celevel_type(reply) == CellNetworkType::NbIotEcl0
        },
{
}

/// The cell ID that the answer to `+CEREG?` gives: the hex value 3 when the registration state
/// (value 1) is home (1) or roaming (5).
pub open spec fn cell_id_of(reply: Result<AtResponse, AtError>) -> Option<u32> {
    match reply {
        Err(_) => None,
        Ok(resp) => match resp.picked(None::<(u8, usize)>, seq![1usize, 3usize]) {
            Err(_) => None,
            Ok(w) => if parse_unsigned(w[0], 10, 0xff) is Some && encode_utf8(w[1]).len() <= 8 {
                let stat = parse_unsigned(w[0], 10, 0xff)->0;
                if stat == 1 || stat == 5 {
                    match parse_unsigned(w[1], 16, 0xffff_ffff) {
                        Some(v) => Some(v as u32),
                        None => None,
                    }
                } else {
                    None
                }
            } else {
                None
            },
        },
    }
}

/// The cell ID is read only when registered: for an answer to `+CEREG?` whose value 1 is the
/// state `stat` and whose value 3 is at most 8 hexadecimal digits of value `id`, the cell ID is
/// `id` when the state is home (1) or roaming (5), and none in any other state.
pub proof fn lemma_cell_id_when_registered(
    resp: AtResponse,
    w: Seq<Seq<char>>,
    stat: nat,
    id: nat,
)
    requires
        resp.picked(None::<(u8, usize)>, seq![1usize, 3usize]) == Ok::<Seq<Seq<char>>, AtError>(w),
        parse_unsigned(w[0], 10, 0xff) == Some(stat),
        encode_utf8(w[1]).len() <= 8,
        parse_unsigned(w[1], 16, 0xffff_ffff) == Some(id),
    ensures
        stat == 1 || stat == 5 ==> cell_id_of(Ok(resp)) == Some(id as u32),
        !(stat == 1 || stat == 5) ==> cell_id_of(Ok(resp)) is None,
{
}

/// The signal quality is read from the answer to `+QCSQ` with five values: when value 0 is the
/// network `net` (at most 10 bytes), value 2 the RSRP `rsrp` in dBm, value 3 the SINR `sinr`
/// (0 to 255, in steps of 1/5 dB above -20 dB) and value 4 an `i8`, the network is NB-IoT
/// exactly when `net` is `NBIoT`, the RSRP is kept, and the SNR in centibels is `2 * sinr -
/// 200`.
pub proof fn lemma_quality_read(
    resp: AtResponse,
    w: Seq<Seq<char>>,
    rsrp: int,
    sinr: nat,
)
    requires
        resp.response_spec(None::<(u8, usize)>) matches Ok(c) && c.values_spec().len() == 5,
        resp.picked(None::<(AtString<10>, usize)>, seq![0usize, 2usize, 3usize, 4usize]) == Ok::<
            Seq<Seq<char>>,
            AtError,
        >(w),
        encode_utf8(w[0]).len() <= 10,
        parse_signed(w[1], 0x7fff) == Some(rsrp),
        parse_unsigned(w[2], 10, 0xff) == Some(sinr),
        parse_signed(w[3], 0x7f) is Some,
    ensures
        qcsq_result(resp) == Ok::<(bool, i16, i16), RegistrationError>(
            (w[0] == "NBIoT"@, rsrp as i16, (2 * sinr - 200) as i16),
        ),
{
}

impl SignalQuery {
    /// A query that has not begun: nothing is known of the cell yet.
    pub fn new() -> (r: SignalQuery)
        ensures
            r.state == SignalState::Start,
            r.result is None,
            r.info == (CellSignalInfo {
                network_type: CellNetworkType::Unknown,
                rsrp_dbm: 0,
                snr_cb: 0,
                cellid: None,
            }),
    {
        SignalQuery {
            state: SignalState::Start,
            info: CellSignalInfo {
                network_type: CellNetworkType::Unknown,
                rsrp_dbm: 0,
                snr_cb: 0,
                cellid: None,
            },
            result: None,
        }
    }

    /// Begins: ask for the signal quality.
    pub fn start(&mut self) -> (a: ModemAction)
        requires
            old(self).state is Start,
        ensures
            is_call(a, "+QCSQ"@, None),
            final(self).state == SignalState::Quality,
            final(self).result == old(self).result,
            final(self).info == old(self).info,
    {
        self.state = SignalState::Quality;
        ModemAction::Call(String::from_str("+QCSQ"), None)
    }

    /// The answer handed to `step` can be read without failing on the way.
    pub open spec fn reply_ok(self, reply: Result<AtResponse, AtError>) -> bool {
        match reply {
            Err(_) => true,
            Ok(resp) => match self.state {
                SignalState::Quality => qcsq_ok(resp),
                SignalState::CoverageLevel => resp.pick_ok(None::<(u8, usize)>, seq![1usize]),
                SignalState::CellId => resp.pick_ok(None::<(u8, usize)>, seq![1usize, 3usize]),
                _ => true,
            },
        }
    }

    /// Whether `step` can take `reply`.
    pub fn reply_is_safe(&self, reply: &Result<AtResponse, AtError>) -> (r: bool)
        ensures
            r == self.reply_ok(*reply),
    {
        match reply {
            Err(_) => true,
            Ok(resp) => match self.state {
                SignalState::Quality => {
                    let first: [usize; 0] = [];
                    assert(first@ =~= Seq::<usize>::empty());
                    let idx: [usize; 4] = [0, 2, 3, 4];
                    assert(idx@ =~= seq![0usize, 2usize, 3usize, 4usize]);
                    let ok_first = resp.pick_is_safe::<u8>(&None, first.as_slice());
                    if !ok_first {
                        return false;
                    }
                    let has = match resp.response::<u8>(None) {
                        Ok(c) => c.values_available(),
                        Err(_) => true,
                    };
                    has && resp.pick_is_safe::<AtString<10>>(&None, idx.as_slice())
                },
                SignalState::CoverageLevel => {
                    let idx: [usize; 1] = [1];
                    assert(idx@ =~= seq![1usize]);
                    resp.pick_is_safe::<u8>(&None, idx.as_slice())
                },
                SignalState::CellId => {
                    let idx: [usize; 2] = [1, 3];
                    assert(idx@ =~= seq![1usize, 3usize]);
                    resp.pick_is_safe::<u8>(&None, idx.as_slice())
                },
                _ => true,
            },
        }
    }

    /// Takes the answer to the last question and decides what comes next: after the quality,
    /// the coverage level on NB-IoT, else the cell; after the cell, the result.
    pub fn step(&mut self, reply: Result<AtResponse, AtError>) -> (a: ModemAction)
        requires
            old(self).state is Quality || old(self).state is CoverageLevel || old(self).state is CellId,
            old(self).reply_ok(reply),
        ensures
            match old(self).state {
                SignalState::Quality => match reply {
                    Err(e) => final(self).state == SignalState::Done && a == ModemAction::Finish(
                        Ok(()),
                    ) && final(self).result == Some(
                        Err::<CellSignalInfo, RegistrationError>(registration_error_of(e)),
                    ),
                    Ok(resp) => match qcsq_result(resp) {
                        Err(e) => final(self).state == SignalState::Done && a == ModemAction::Finish(
                            Ok(()),
                        ) && final(self).result == Some(Err::<CellSignalInfo, RegistrationError>(e)),
                        Ok((nbiot, rsrp, snr)) => final(self).info.rsrp_dbm == rsrp && final(self).info.snr_cb == snr && final(self).result is None && if nbiot {
                            is_call(a, "+QCFG=\"celevel\""@, None) && final(self).state
                                == SignalState::CoverageLevel
                        } else {
                            is_call(a, "+CEREG?"@, None) && final(self).state == SignalState::CellId
                                && final(self).info.network_type == CellNetworkType::LteM
                        },
                    },
                },
                SignalState::CoverageLevel => is_call(a, "+CEREG?"@, None) && final(self).state
                    == SignalState::CellId && final(self).result is None && final(self).info == (
                CellSignalInfo { network_type: celevel_type(reply), ..old(self).info }),
                SignalState::CellId => final(self).state == SignalState::Done && a
                    == ModemAction::Finish(Ok(())) && final(self).result == Some(
                    Ok::<CellSignalInfo, RegistrationError>(
                        CellSignalInfo { cellid: cell_id_of(reply), ..old(self).info },
                    ),
                ),
                _ => true,
            },
    {
        match self.state {
            SignalState::Quality => {
                let resp = match reply {
                    Err(e) => {
                        self.state = SignalState::Done;
                        self.result = Some(Err(RegistrationError::from_error(e)));
                        return ModemAction::Finish(Ok(()));
                    },
                    Ok(resp) => resp,
                };
                match resp.count_response_values() {
                    Err(e) => {
                        self.state = SignalState::Done;
                        self.result = Some(Err(RegistrationError::from_error(e)));
                        return ModemAction::Finish(Ok(()));
                    },
                    Ok(n) => {
                        if n != 5 {
                            self.state = SignalState::Done;
                            self.result = Some(Err(RegistrationError::NoNetworkService));
                            return ModemAction::Finish(Ok(()));
                        }
                    },
                }
                let idx: [usize; 4] = [0, 2, 3, 4];
                assert(idx@ =~= seq![0usize, 2usize, 3usize, 4usize]);
                match resp.parse4::<AtString<10>, i16, u8, i8>(idx) {
                    Err(e) => {
                        self.state = SignalState::Done;
                        self.result = Some(Err(RegistrationError::from_error(e)));
                        ModemAction::Finish(Ok(()))
                    },
                    Ok((network, rsrp_dbm, snr_mult, _)) => {
                        self.info.rsrp_dbm = rsrp_dbm;
                        self.info.snr_cb = (snr_mult as i16) * 2 - 200;
                        self.result = None;
                        if str_eq(network.as_str(), "NBIoT") {
                            self.state = SignalState::CoverageLevel;
                            ModemAction::Call(String::from_str("+QCFG=\"celevel\""), None)
                        } else {
                            self.info.network_type = CellNetworkType::LteM;
                            self.state = SignalState::CellId;
                            ModemAction::Call(String::from_str("+CEREG?"), None)
                        }
                    },
                }
            },
            SignalState::CoverageLevel => {
                let level = match reply {
                    Err(_) => CellNetworkType::NbIotEcl0,
                    Ok(resp) => {
                        let idx: [usize; 1] = [1];
                        assert(idx@ =~= seq![1usize]);
                        match resp.parse1::<u8>(idx) {
                            Ok(0) => CellNetworkType::NbIotEcl0,
                            Ok(1) => CellNetworkType::NbIotEcl1,
                            Ok(2) => CellNetworkType::NbIotEcl2,
                            _ => CellNetworkType::NbIotEcl0,
                        }
                    },
                };
                self.info.network_type = level;
                self.result = None;
                self.state = SignalState::CellId;
                ModemAction::Call(String::from_str("+CEREG?"), None)
            },
            SignalState::CellId => {
                let cellid = match reply {
                    Err(_) => None,
                    Ok(resp) => {
                        let idx: [usize; 2] = [1, 3];
                        assert(idx@ =~= seq![1usize, 3usize]);
                        match resp.parse2::<u8, AtString<8>>(idx, None) {
                            Err(_) => None,
                            Ok((stat, cell)) => {
                                if stat == 1 || stat == 5 {
                                    match parse_unsigned_chars(&chars_of(cell.as_str()), 16, 0xffff_ffff) {
                                        Some(v) => Some(v as u32),
                                        None => None,
                                    }
                                } else {
                                    None
                                }
                            },
                        }
                    },
                };
                self.info.cellid = cellid;
                self.state = SignalState::Done;
                self.result = Some(Ok(self.info));
                ModemAction::Finish(Ok(()))
            },
            _ => ModemAction::Finish(Ok(())),
        }
    }
}

} // verus!
