use yaroc::error::Error;
use yaroc::punch::{
    bytes_to_datetime, card_from_bytes, card_to_bytes, last_dow, punch_to_bytes,
    sportident_checksum, time_to_bytes, weekday_from_sunday, DateTimeOffset, LocalDateTime,
    SiPunch,
};
use yaroc::si_uart::{SiBuffer, BUF_SIZE};
use yaroc::system_info::parse_qlts;

/// 2023-11-23, a Thursday, in days from the common era.
const NOV_23_2023: i32 = 738847;

fn at(date: i32, h: u32, m: u32, s: u32, nanos: u32) -> LocalDateTime {
    LocalDateTime {
        date,
        secs: h * 3600 + m * 60 + s,
        nanos,
    }
}

fn cet(local: LocalDateTime) -> DateTimeOffset {
    DateTimeOffset {
        local,
        offset: 3600,
    }
}

#[test]
fn test_checksum() {
    let s = b"\xd3\r\x00\x02\x00\x1f\xb5\xf3\x18\x99As\x00\x07\x08";
    assert_eq!(sportident_checksum(s), 0x8f98);

    let s = b"\xd3\r\x00\x02\x00\x1f\xb5\xf3\x18\x9b\x98\x1e\x00\x070";
    assert_eq!(sportident_checksum(s), 0x4428);

    let s = b"\x01\x80\x05";
    assert_eq!(sportident_checksum(s), 0);
}

#[test]
fn test_checksum_from_logged() {
    // Logged raw data on October 5, 2025
    let expected =
        b"\xff\x02\xd3\x0d\x00\x01\x00\x7b\xc0\xc1\x00\x9f\xa9\x20\x00\x03\x88\xf8\x93\x03";
    assert_eq!(sportident_checksum(&expected[2..17]), 0xf893);
}

#[test]
fn checksum_of_short_messages() {
    assert_eq!(sportident_checksum(b""), 0);
    assert_eq!(sportident_checksum(b"\x01"), 0x0100);
    assert_eq!(sportident_checksum(b"\x01\x02"), 0x0102);
}

#[test]
fn test_card_series() {
    let bytes = card_to_bytes(65535);
    assert_eq!(bytes, [0, 0x00, 0xff, 0xff]);

    let bytes = card_to_bytes(416534);
    assert_eq!(bytes, [0, 0x04, 0x40, 0x96]);

    let bytes = card_to_bytes(81110151);
    assert_eq!(bytes, [4, 0xd5, 0xa4, 0x87]);
}

#[test]
fn card_numbers_survive_encoding() {
    for card in [0u32, 1, 65535, 100000, 165535, 416534, 465535, 500000, 1715004, 16777215] {
        assert_eq!(card_from_bytes(&card_to_bytes(card)), card);
    }
}

#[test]
fn test_time_to_bytes() {
    let time = at(NOV_23_2023, 10, 0, 3, 793_000_000);
    let bytes = time_to_bytes(time);
    assert_eq!(bytes, [0x8, 0x8c, 0xa3, 0xcb]);

    let time = at(NOV_23_2023, 10, 0, 3, 999_000_000);
    let bytes = time_to_bytes(time);
    assert_eq!(bytes, [0x8, 0x8c, 0xa3, 0xff]);

    let time = at(NOV_23_2023, 10, 0, 3, 0);
    let bytes = time_to_bytes(time);
    assert_eq!(bytes, [0x8, 0x8c, 0xa3, 0x00]);
}

#[test]
fn times_survive_encoding_to_the_256th() {
    let time = at(NOV_23_2023, 22, 59, 1, 792_968_750);
    let bytes = time_to_bytes(time);
    assert_eq!(bytes_to_datetime(&bytes, NOV_23_2023 + 3), time);
    let time = at(NOV_23_2023 - 2, 0, 0, 0, 0);
    assert_eq!(bytes_to_datetime(&time_to_bytes(time), NOV_23_2023), time);
}

#[test]
fn weekdays_and_last_dow() {
    assert_eq!(weekday_from_sunday(NOV_23_2023), 4);
    assert_eq!(last_dow(4, NOV_23_2023), NOV_23_2023);
    assert_eq!(last_dow(5, NOV_23_2023), NOV_23_2023 - 6);
    assert_eq!(last_dow(0, NOV_23_2023), NOV_23_2023 - 4);
}

#[test]
fn test_punch() {
    let time = cet(at(NOV_23_2023, 10, 0, 3, 793_000_000));
    let punch = SiPunch::new(1715004, 47, time, 2).raw;
    assert_eq!(
        &punch,
        b"\xff\x02\xd3\x0d\x00\x2f\x00\x1a\x2b\x3c\x08\x8c\xa3\xcb\x02\x00\x01\x50\xe3\x03"
    );
    assert_eq!(punch_to_bytes(1715004, 47, time.local, 2), punch);
}

#[test]
fn test_punches_from_payload() {
    let time = cet(at(NOV_23_2023, 10, 0, 3, 792_968_750));

    let punch = SiPunch::new(1715004, 47, time, 2);
    let payload =
        b"\x03\xff\x02\xd3\x0d\x00\x2f\x00\x1a\x2b\x3c\x08\x8c\xa3\xcb\x02\x00\x01\x50\xe3\x03\xff\x02";

    let punches = SiPunch::punches_from_payload::<2>(payload, NOV_23_2023, 3600);
    assert_eq!(punches.len(), 2);
    assert_eq!(*punches[0].as_ref().unwrap(), punch);
    assert_eq!(*punches[1].as_ref().unwrap_err(), Error::BufferTooSmallError);
}

#[test]
fn payload_without_punch_is_a_value_error() {
    let punches = SiPunch::punches_from_payload::<2>(b"\x01\x02\x03", NOV_23_2023, 0);
    assert_eq!(punches, vec![Err(Error::ValueError)]);
}

#[test]
fn punch_read_back_from_its_record() {
    let time = cet(at(NOV_23_2023, 17, 5, 59, 500_000_000));
    let punch = SiPunch::new(8_000_123, 131, time, 4);
    let read = SiPunch::from_raw(punch.raw, NOV_23_2023 + 2, 3600);
    assert_eq!(read, punch);
}

#[test]
fn test_find_punch_data() {
    let long_payload =
        b"\x03\xff\x02\xd3\x0d\x00\x2f\x00\x1a\x2b\x3c\x08\x8c\xa3\xcb\x02\x00\x01\x50\xe3\x03\xff";
    let (bytes, rest) = SiPunch::find_punch_data(long_payload).unwrap();
    assert_eq!(
        &bytes,
        b"\xff\x02\xd3\x0d\x00\x2f\x00\x1a\x2b\x3c\x08\x8c\xa3\xcb\x02\x00\x01\x50\xe3\x03"
    );
    assert_eq!(rest, b"\xff");

    let payload =
        b"\x03\xff\x02\xd3\x0d\x00\x2f\x00\x1a\x2b\x3c\x08\x8c\xa3\xcb\x02\x00\x01\x50\xe3";
    let (bytes, rest) = SiPunch::find_punch_data(payload).unwrap();
    assert_eq!(
        &bytes,
        b"\xff\x02\xd3\x0d\x00\x2f\x00\x1a\x2b\x3c\x08\x8c\xa3\xcb\x02\x00\x01\x50\xe3\x03"
    );
    assert!(rest.is_empty());

    let short_payload =
        b"\x02\xd3\x0d\x00\x2f\x00\x1a\x2b\x3c\x08\x8c\xa3\xcb\x02\x00\x01\x50\xe3\x03";
    let (bytes, rest) = SiPunch::find_punch_data(short_payload).unwrap();
    assert_eq!(
        &bytes,
        b"\xff\x02\xd3\x0d\x00\x2f\x00\x1a\x2b\x3c\x08\x8c\xa3\xcb\x02\x00\x01\x50\xe3\x03"
    );
    assert!(rest.is_empty());

    let too_short_payload =
        b"\x02\xd3\x0d\x00\x2f\x00\x1a\x2b\x3c\x08\x8c\xa3\xcb\x02\x00\x01\x50\xe3";
    let res = SiPunch::find_punch_data(too_short_payload);
    assert!(res.is_none());
}

#[test]
fn encoded_punch_is_found_in_a_stream() {
    let time = cet(at(NOV_23_2023, 9, 30, 0, 0));
    let punch = SiPunch::new(4_000_000, 200, time, 1);
    let mut stream = vec![0u8, 7, 9];
    stream.extend_from_slice(&punch.raw);
    stream.extend_from_slice(b"\x01\x02");
    let (bytes, rest) = SiPunch::find_punch_data(&stream).unwrap();
    assert_eq!(bytes, punch.raw);
    assert_eq!(rest, b"\x01\x02");
}

#[test]
fn test_qlts() {
    let datetime = parse_qlts("2024/11/25,22:12:11+04extra").unwrap();
    assert_eq!(datetime.local.date, 739215);
    assert_eq!(datetime.local.secs, 22 * 3600 + 12 * 60 + 11);
    assert_eq!(datetime.local.nanos, 0);
    assert_eq!(datetime.offset, 3600);
}

#[test]
fn test_cclk() {
    let dt = parse_qlts("2024/11/25,22:12:11+04extra").unwrap();
    assert_eq!(dt.local.date, 739215);
    assert_eq!(dt.local.secs, 22 * 3600 + 12 * 60 + 11);
    assert_eq!(dt.offset, 3600);
}

#[test]
fn qlts_rejects_bad_clocks() {
    assert_eq!(parse_qlts("2024/11/25,22:12"), Err(Error::ParseError));
    assert_eq!(parse_qlts("2024/02/30,22:12:11+04,0"), Err(Error::ParseError));
    assert_eq!(parse_qlts("2024/11/25,24:12:11+04,0"), Err(Error::ParseError));
    assert_eq!(parse_qlts("2024/11/25,22:12:11+96,0"), Err(Error::ParseError));
    assert_eq!(parse_qlts("20x4/11/25,22:12:11+04,0"), Err(Error::ParseError));
    let dt = parse_qlts("2024/12/24,10:48:23+04,0").unwrap();
    assert_eq!(dt.local.date, 739244);
}

/// A UART that hands out what was written into it, at most as much as the reader has room for.
struct Pipe {
    bytes: Vec<u8>,
}

impl Pipe {
    fn write(&mut self, data: &[u8]) {
        self.bytes.extend_from_slice(data);
    }

    fn read(&mut self, buffer: &mut SiBuffer) -> Result<Vec<[u8; 20]>, Error> {
        let n = self.bytes.len().min(buffer.free_space());
        let data: Vec<u8> = self.bytes.drain(..n).collect();
        buffer.receive(&data)
    }
}

fn send_last_record(card: u32, code: u16, time: DateTimeOffset, mode: u8) -> SiPunch {
    SiPunch::new(card, code, time, mode)
}

#[test]
fn test_correct_punches() {
    let time1 = cet(at(NOV_23_2023, 10, 0, 3, 792_968_750));
    let punch1 = send_last_record(46283, 47, time1, 1);

    let mut pipe = Pipe { bytes: Vec::new() };
    pipe.write(b"\x03");
    pipe.write(&punch1.raw);

    let time2 = cet(at(NOV_23_2023, 10, 2, 43, 792_968_750));
    let punch2 = send_last_record(46289, 94, time2, 1);
    pipe.write(&punch2.raw[1..]);

    let mut si_uart = SiBuffer::new();
    let punches1 = pipe.read(&mut si_uart).unwrap();
    assert_eq!(punches1.as_slice(), &[punch1.raw, punch2.raw]);

    // Now inject punch1 again but in two parts
    pipe.write(b"\xff\x02");
    let punches2 = pipe.read(&mut si_uart).unwrap();
    assert!(punches2.is_empty());
    pipe.write(&punch1.raw[2..]);
    let punches3 = pipe.read(&mut si_uart).unwrap();
    assert_eq!(punches3.as_slice(), &[punch1.raw]);
}

#[test]
fn test_zeroed_bytes_first() {
    let mut pipe = Pipe { bytes: Vec::new() };
    let mut si_uart = SiBuffer::new();

    // We send 38 bytes which are empty: no punches, no headers.
    pipe.write(&[0; 38]);
    assert!(pipe.read(&mut si_uart).unwrap().is_empty());

    // Then finally we send a punch, but it's split into two parts.
    let time1 = cet(at(NOV_23_2023, 10, 0, 3, 792_968_750));
    let punch1 = send_last_record(46283, 47, time1, 1);
    pipe.write(&punch1.raw[0..2]);
    assert!(pipe.read(&mut si_uart).is_err());
    pipe.write(&punch1.raw[2..]);
    let punches = pipe.read(&mut si_uart).unwrap();
    assert_eq!(punches[0], punch1.raw);
}

#[test]
fn test_garbage() {
    let mut pipe = Pipe { bytes: Vec::new() };
    let mut si_uart = SiBuffer::new();

    // Fill the buffer with garbage
    pipe.write(&[0xff; BUF_SIZE]);
    assert!(pipe.read(&mut si_uart).is_err());
    // The buffer should be cleaned by `LEN`
    assert_eq!(si_uart.free_space(), 20);
}

#[test]
fn closed_uart_and_capacity() {
    let mut si_uart = SiBuffer::new();
    assert_eq!(si_uart.receive(&[]), Err(Error::UartClosedError));

    let time = cet(at(NOV_23_2023, 10, 0, 3, 0));
    let mut data = Vec::new();
    let mut raws = Vec::new();
    for k in 0..5u16 {
        let p = SiPunch::new(1000 + u32::from(k), 31 + k, time, 1);
        data.extend_from_slice(&p.raw);
        raws.push(p.raw);
    }
    let punches = si_uart.receive(&data).unwrap();
    assert_eq!(punches, raws);
    assert_eq!(si_uart.free_space(), BUF_SIZE);
}

#[test]
fn punch_read_back_on_its_own_day_at_any_date() {
    for date in [-95_746_129, -1, 0, 1, NOV_23_2023, 95_000_000] {
        let time = DateTimeOffset {
            local: at(date, 23, 59, 59, 3_906_250 * 255),
            offset: -7200,
        };
        let punch = SiPunch::new(65_535, 511, time, 15);
        assert_eq!(SiPunch::from_raw(punch.raw, date, -7200), punch);
    }
}
