use yaroc::at::{
    broker_line, call_status, modem_lines, split_at_response, split_values, AtError, AtResponse, AtString,
    AtValue, BrokerStream, CommandResponse, FromModem,
};
use yaroc::bounded::AtLine;
use yaroc::error::Error;

#[test]
fn at_test_split_at_response() {
    let res = "+QMTSTAT: 0,2";
    assert_eq!(split_at_response(res), Some(("QMTSTAT", "0,2")));

    let res = "QMTSTAT: 0,2";
    assert_eq!(split_at_response(res), None);
    let res = "+QMTSTAT 0,2";
    assert_eq!(split_at_response(res), None);
}

#[test]
fn response_test_split_at_response() {
    let res = "+QMTSTAT: 0,2";
    assert_eq!(split_at_response(res), Some(("QMTSTAT", "0,2")));

    let res = "QMTSTAT: 0,2";
    assert_eq!(split_at_response(res), None);
    let res = "+QMTSTAT 0,2";
    assert_eq!(split_at_response(res), None);
}

#[test]
fn test_parse_values() {
    let ans = split_values("1,\"item1,item2\",\"cellid\"").unwrap();
    assert_eq!(&ans, &["1", "item1,item2", "cellid"]);
}

#[test]
fn test_parsing() {
    let lines = vec![FromModem::try_from("+CONN: 1,783,\"disconnected\"").unwrap()];
    let at_response = AtResponse::new(lines, "+CONN?");
    let (id, status) = at_response.parse2::<u8, AtString<20>>([0, 2], None).unwrap();
    assert_eq!(id, 1);
    assert_eq!(status.as_str(), "disconnected");

    let lines = vec![FromModem::try_from("+CONN: 1,783,\"disconnected\"").unwrap()];
    let at_response = AtResponse::new(lines, "+CONN?");
    assert_eq!(at_response.count_response_values().unwrap(), 3);
}

#[test]
fn test_cmd_response_split_values() {
    let ans = split_values("1,\"item1,item2\",\"cellid\",-7,20").unwrap();
    assert_eq!(&ans, &["1", "item1,item2", "cellid", "-7", "20"]);

    let ans = split_values("1,\"item1,item2\",\"cellid");
    assert_eq!(ans.unwrap_err(), AtError::ParseError);
}

#[test]
fn test_cmd_response_pick_values() {
    let response = CommandResponse::new("+CMD: 1,\"item1,item2\",12").unwrap();
    let vals = response.pick_values(&[1, 2]).unwrap();
    assert_eq!(vals, vec!["item1,item2".to_string(), "12".to_string()]);
}

#[test]
fn test_cmd_response_parse_values() {
    let response = CommandResponse::new("+CMD: 8,13,21").unwrap();
    assert_eq!(response.parse_values::<u8>().unwrap().as_slice(), &[8, 13, 21]);
}

#[test]
fn test_at_response() {
    let lines = vec![
        FromModem::try_from("+CONN: 1,\"disconnected\"").unwrap(),
        FromModem::try_from("+CONN: 5,\"connected\"").unwrap(),
    ];
    let at_response = AtResponse::new(lines, "+CONN?");
    let response = at_response.response(Some((5u8, 0))).unwrap();
    assert_eq!(response.values().as_slice(), &["5", "connected"]);

    let response = at_response.response(Some((3u8, 0)));
    assert_eq!(response.unwrap_err(), AtError::ModemError);

    let response = at_response.response::<u8>(None).unwrap();
    assert_eq!(response.values().as_slice(), &["1", "disconnected"]);
}

#[test]
fn test_at_response_parse2() {
    let lines = vec![FromModem::try_from("+CONN: 1,783,\"disconnected\"").unwrap()];
    let at_response = AtResponse::new(lines, "+CONN?");
    assert_eq!(at_response.count_response_values().unwrap(), 3);
    let (id, status) = at_response.parse2::<u8, AtString<20>>([0, 2], None).unwrap();
    assert_eq!(id, 1);
    assert_eq!(status.as_str(), "disconnected");
}

#[test]
fn test_at_response_parse4() {
    let lines = vec![FromModem::try_from("+QCSQ: \"NBIoT\",0,-131,55,-20").unwrap()];
    let at_response = AtResponse::new(lines, "+QCSQ");
    let (rssi_dbm, rsrp_dbm, snr_mult, rsrq_dbm) =
        at_response.parse4::<i8, i16, u8, i8>([1, 2, 3, 4]).unwrap();
    assert_eq!(rssi_dbm, 0);
    assert_eq!(rsrp_dbm, -131);
    assert_eq!(snr_mult, 55);
    assert_eq!(rsrq_dbm, -20);
}

#[test]
fn test_try_from() {
    assert_eq!(FromModem::try_from("OK").unwrap(), FromModem::Okay);
    assert_eq!(FromModem::try_from("  RDY \r\n").unwrap(), FromModem::Okay);
    assert_eq!(FromModem::try_from("APP RDY").unwrap(), FromModem::Okay);
    assert_eq!(FromModem::try_from(">").unwrap(), FromModem::Okay);
    assert_eq!(FromModem::try_from("ERROR").unwrap(), FromModem::Error);
    assert_eq!(FromModem::try_from("+CME ERROR: 30").unwrap(), FromModem::CmeError(30));
    assert!(FromModem::CmeError(30).terminal());
    assert_eq!(
        FromModem::try_from("+QCSQ: \"NBIoT\",0,-131,55,-20").unwrap(),
        FromModem::CommandResponse(
            CommandResponse::new("+QCSQ: \"NBIoT\",0,-131,55,-20").unwrap()
        )
    );
    assert_eq!(FromModem::Error.into_error(), Some(AtError::AtErrorResponse));
    assert_eq!(FromModem::CmeError(30).into_error(), Some(AtError::CmeError(30)));
    assert_eq!(FromModem::Okay.into_error(), None);
    assert_eq!(
        FromModem::try_from("some raw line").unwrap(),
        FromModem::Line(AtLine::new("some raw line").unwrap())
    );
}

/// Passes the lines of `text` on as the broker task does: a command response that `is_urc`
/// takes goes to `urcs`, everything else to `main`, and an answer left open is closed by `Eof`.
fn parse_lines(
    text: &str,
    is_urc: fn(&CommandResponse) -> bool,
    main: &mut Vec<Result<FromModem, Error>>,
    urcs: &mut Vec<Result<FromModem, Error>>,
) {
    let mut stream = BrokerStream::new();
    for line in modem_lines(text) {
        let item = broker_line(line);
        if let Ok(FromModem::CommandResponse(c)) = &item {
            if is_urc(c) {
                urcs.push(item);
                continue;
            }
        }
        stream.forward(&item);
        main.push(item);
    }
    if stream.needs_eof() {
        main.push(Ok(FromModem::Eof));
    }
}

fn urc_handler(response: &CommandResponse) -> bool {
    response.command() == "URC"
}

#[test]
fn uart_test_at_broker() {
    let mut main = Vec::new();
    let mut urcs = Vec::new();
    parse_lines("OK\n+URC: 1,\"string\"\nERROR", urc_handler, &mut main, &mut urcs);
    assert_eq!(main.remove(0).unwrap(), FromModem::Okay);
    let urc = match urcs.remove(0).unwrap() {
        FromModem::CommandResponse(c) => c,
        _ => panic!("a URC is a command response"),
    };
    assert_eq!(urc.command(), "URC");
    assert_eq!(urc.values().as_slice(), ["1", "string"]);
    assert_eq!(main.remove(0).unwrap(), FromModem::Error);

    let long = "123456789012345678901234567890123456789012345678901234567890123456789012345678901234567890X";
    parse_lines(long, urc_handler, &mut main, &mut urcs);
    assert_eq!(main.remove(0), Err(Error::BufferTooSmallError));

    parse_lines("+NONURC: 1\n", urc_handler, &mut main, &mut urcs);
    assert_eq!(
        main.remove(0).unwrap(),
        FromModem::CommandResponse(CommandResponse::new("+NONURC: 1").unwrap())
    );
    assert_eq!(main.remove(0).unwrap(), FromModem::Eof);
    assert_eq!(main.len(), 0);
    assert!(urcs.is_empty());
}

#[test]
fn modem_lines_split_on_both_line_ends() {
    assert_eq!(modem_lines("OK\r\n+URC: 1\n\nERROR"), vec!["OK", "+URC: 1", "ERROR"]);
    assert!(modem_lines("").is_empty());
    assert_eq!(modem_lines("\r\n\n"), Vec::<&str>::new());
}

#[test]
fn broker_line_takes_prompt_with_space() {
    assert_eq!(broker_line("> ").unwrap(), FromModem::Okay);
    assert_eq!(broker_line("APP RDY").unwrap(), FromModem::Okay);
    assert_eq!(
        broker_line("hello").unwrap(),
        FromModem::Line(AtLine::new("hello").unwrap())
    );
}

#[test]
fn command_response_keeps_prefix_and_values() {
    let c = CommandResponse::new("+QMTOPEN: 1,\"broker.emqx.io\",1883").unwrap();
    assert_eq!(c.command(), "QMTOPEN");
    assert_eq!(c.values().as_slice(), &["1", "broker.emqx.io", "1883"]);
    assert!(c.values_available());
    assert_eq!(CommandResponse::new("QMTOPEN: 1").unwrap_err(), AtError::ParseError);
    let too_long = format!("+A: {}", "1".repeat(60));
    assert_eq!(
        CommandResponse::new(&too_long).unwrap_err(),
        AtError::BufferTooSmallError
    );
}

#[test]
fn classification_ignores_surrounding_whitespace() {
    for line in ["OK", "ERROR", "+CME ERROR: 31", "+CGATT: 1", "text"] {
        let padded = format!("  {line}\r\n");
        assert_eq!(
            FromModem::try_from(line).unwrap(),
            FromModem::try_from(&padded).unwrap()
        );
    }
}

#[test]
fn cme_error_with_bad_code_is_a_response() {
    assert_eq!(
        FromModem::try_from("+CME ERROR: x").unwrap(),
        FromModem::CommandResponse(CommandResponse::new("+CME ERROR: x").unwrap())
    );
    assert_eq!(
        FromModem::try_from("+CME ERROR").unwrap(),
        FromModem::Line(AtLine::new("+CME ERROR").unwrap())
    );
    let long = "x".repeat(61);
    assert_eq!(FromModem::try_from(&long).unwrap_err(), AtError::BufferTooSmallError);
}

#[test]
fn call_status_reads_the_last_line() {
    let lines = vec![FromModem::try_from("+CGATT: 1").unwrap(), FromModem::Okay];
    assert_eq!(call_status(&lines), Ok(()));
    let resp = AtResponse::new(lines, "+CGATT?");
    assert!(!resp.is_error());
    assert_eq!(resp.lines().len(), 2);

    let lines = vec![FromModem::Okay, FromModem::CmeError(30)];
    assert_eq!(call_status(&lines), Err(AtError::CmeError(30)));
    let resp = AtResponse::new(lines, "+CGATT=1");
    assert!(resp.is_error());

    assert_eq!(call_status(&[FromModem::Error]), Err(AtError::AtErrorResponse));
    assert_eq!(call_status(&[]), Err(AtError::ModemError));
    assert_eq!(call_status(&[FromModem::Eof]), Err(AtError::ModemError));
}

#[test]
fn at_response_filters_by_command_and_value() {
    let lines = vec![
        FromModem::try_from("+OTHER: 5,1").unwrap(),
        FromModem::try_from("+CGACT: 2,0").unwrap(),
        FromModem::try_from("+CGACT: 1,1").unwrap(),
        FromModem::Okay,
    ];
    let resp = AtResponse::new(lines, "+CGACT?");
    let (cid, state) = resp.parse2::<u8, u8>([0, 1], Some(1)).unwrap();
    assert_eq!((cid, state), (1, 1));

    let lines = vec![FromModem::try_from("+CGACT: 2,0").unwrap()];
    let resp = AtResponse::new(lines, "+CGACT?");
    assert_eq!(resp.parse2::<u8, u8>([0, 1], Some(1)).unwrap_err(), AtError::ModemError);

    let lines = vec![FromModem::try_from("+CGATT: 1").unwrap()];
    let resp = AtResponse::new(lines, "+CGATT?");
    assert_eq!(resp.parse1::<u8>([3]).unwrap_err(), AtError::ModemError);

    let lines = vec![FromModem::try_from("+CGATT: x").unwrap()];
    let resp = AtResponse::new(lines, "+CGATT?");
    assert_eq!(resp.parse1::<u8>([0]).unwrap_err(), AtError::ParseError);
}

#[test]
fn at_values_parse_within_their_range() {
    assert_eq!(u8::parse_value("255"), Some(255));
    assert_eq!(u8::parse_value("256"), None);
    assert_eq!(i8::parse_value("-128"), Some(-128));
    assert_eq!(i8::parse_value("128"), None);
    assert_eq!(i16::parse_value("-131"), Some(-131));
    assert_eq!(u16::parse_value("65535"), Some(65535));
    assert_eq!(u32::parse_value("4294967295"), Some(4294967295));
    assert_eq!(i32::parse_value("-2147483648"), Some(-2147483648));
    assert_eq!(u8::parse_value("+7"), Some(7));
    assert_eq!(u8::parse_value(""), None);
    assert!(AtString::<5>::parse_value("12345").is_some());
    assert!(AtString::<5>::parse_value("123456").is_none());
}

#[test]
fn test_response() {
    let lines = vec![
        FromModem::try_from("+CONN: 1,\"disconnected\"").unwrap(),
        FromModem::try_from("+CONN: 5,\"connected\"").unwrap(),
    ];
    let at_response = AtResponse::new(lines, "+CONN?");
    let response = at_response.response(Some((5u8, 0)));
    assert_eq!(response.unwrap().rest(), "5,\"connected\"");

    let response = at_response.response(Some((3u8, 0)));
    assert_eq!(response.unwrap_err(), AtError::ModemError);

    let response = at_response.response::<u8>(None);
    assert_eq!(response.unwrap().rest(), "1,\"disconnected\"");
}
