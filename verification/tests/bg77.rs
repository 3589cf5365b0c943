use yaroc::at::{call_status, AtError, AtResponse, CommandResponse, FromModem};
use yaroc::connection::{
    reconnect_due, ConnectAction, ConnectionEvent, ConnectionState, ConnectionSupervisor,
};
use yaroc::error::Error;
use yaroc::modem::{
    ConfigureProcedure, ModemAction, ModemConfig, ModemUrc, RegisteredQuery, Registration,
    RegistrationError, modem_urc,
};
use yaroc::mqtt::{ConnectError, MqttQos, MqttStatus, StatusCode, TcpError};
use yaroc::mqtt_client::{
    ConnectProcedure, DisconnectProcedure, MqttClient, MqttClientConfig, MqttUrc,
    SendProcedure, mqtt_urc, qmtpub_report,
};
use yaroc::system_info::{CellNetworkType, CellSignalInfo, SignalQuery, SignalState};

/// A modem that answers each command with a scripted reply, and checks that the commands come
/// in the scripted order.
struct FakeModem {
    at_responses: Vec<(String, String)>,
    responses: Vec<(String, bool, String)>,
}

impl FakeModem {
    fn new(at_interactions: &[(&str, &str)]) -> Self {
        FakeModem {
            at_responses: at_interactions
                .iter()
                .map(|(c, r)| (c.to_string(), r.to_string()))
                .collect(),
            responses: Vec::new(),
        }
    }

    fn add_pure_interactions(&mut self, interactions: &[(&str, bool, &str)]) {
        self.responses = interactions
            .iter()
            .map(|(c, s, r)| (c.to_string(), *s, r.to_string()))
            .collect();
    }

    fn all_done(&self) -> bool {
        self.at_responses.is_empty() && self.responses.is_empty()
    }

    fn call_at(&mut self, command: &str) -> Result<AtResponse, AtError> {
        let (at_cmd, raw) = self.at_responses.remove(0);
        assert_eq!(at_cmd, format!("AT{command}"), "Expected {at_cmd}, got AT{command}");
        let mut lines = Vec::new();
        for line in raw.lines() {
            if line.is_empty() {
                continue;
            }
            lines.push(FromModem::try_from(line).unwrap());
        }
        if !lines.iter().any(|l| l.terminal()) {
            lines.push(FromModem::Okay);
        }
        call_status(&lines)?;
        Ok(AtResponse::new(lines, command))
    }

    fn call_second_read(&mut self, prefix: &str, second_read: bool) -> Result<AtResponse, AtError> {
        let (expected_cmd, expected_read, raw) = self.responses.remove(0);
        assert_eq!(expected_cmd, prefix);
        assert_eq!(expected_read, second_read);
        let line = FromModem::try_from(&raw).unwrap();
        Ok(AtResponse::new(vec![line, FromModem::Eof], prefix))
    }

    /// Performs the work that an action asks for, and returns the answer.
    fn answer(&mut self, action: &ModemAction) -> Result<AtResponse, AtError> {
        match action {
            ModemAction::Call(cmd, _) | ModemAction::LongCall(cmd, _) => self.call_at(cmd),
            ModemAction::SendPayload(prefix, timeout) => {
                self.call_second_read(prefix, timeout.is_some())
            }
            other => panic!("no answer for {other:?}"),
        }
    }
}

fn network_registration(bg77: &mut FakeModem, force_reattach: bool) -> Result<(), Error> {
    let mut reg = Registration::new(force_reattach);
    let mut action = reg.start();
    loop {
        match action {
            ModemAction::Finish(res) => return res,
            ModemAction::Sleep(_) => action = reg.resume(),
            other => {
                let reply = bg77.answer(&other);
                assert!(reg.reply_is_safe(&reply));
                action = reg.step(reply);
            }
        }
    }
}

fn configure(bg77: &mut FakeModem, config: &ModemConfig) -> (Result<(), Error>, Option<String>) {
    let mut proc = ConfigureProcedure::new();
    let mut action = proc.start();
    loop {
        match action {
            ModemAction::Finish(res) => {
                return (res, proc.firmware.as_ref().map(|f| f.as_str().to_string()));
            }
            other => {
                let reply = bg77.answer(&other);
                action = proc.step(config, reply);
            }
        }
    }
}

fn is_registered(bg77: &mut FakeModem) -> Result<bool, Error> {
    let mut query = RegisteredQuery::new();
    let mut action = query.start();
    loop {
        match action {
            ModemAction::Finish(res) => return res.map(|_| query.registered),
            other => {
                let reply = bg77.answer(&other);
                assert!(query.reply_is_safe(&reply));
                action = query.step(reply);
            }
        }
    }
}

fn connect(bg77: &mut FakeModem, client: &MqttClient) -> Result<(), Error> {
    let mut proc = ConnectProcedure::new();
    let mut action = proc.start();
    loop {
        match action {
            ModemAction::Finish(res) => return res,
            other => {
                let reply = bg77.answer(&other);
                assert!(proc.reply_is_safe(client, &reply));
                action = proc.step(client, reply);
            }
        }
    }
}

fn disconnect(bg77: &mut FakeModem, client: &MqttClient) -> Result<(), Error> {
    let mut proc = DisconnectProcedure::new();
    let mut action = proc.start();
    loop {
        match action {
            ModemAction::Finish(res) => return res,
            other => {
                let reply = bg77.answer(&other);
                action = proc.step(client, reply);
            }
        }
    }
}

fn send_message(
    bg77: &mut FakeModem,
    client: &MqttClient,
    topic: &str,
    msg: &[u8],
    qos: MqttQos,
    msg_id: u16,
) -> Result<(), Error> {
    let (mut proc, mut action) = SendProcedure::start(client, topic, msg.len(), qos, msg_id);
    loop {
        match action {
            ModemAction::Finish(res) => return res,
            other => {
                let reply = bg77.answer(&other);
                assert!(proc.reply_is_safe(&reply));
                action = proc.step(client, reply);
            }
        }
    }
}

fn signal_info(bg77: &mut FakeModem) -> Result<CellSignalInfo, RegistrationError> {
    let mut query = SignalQuery::new();
    let mut action = query.start();
    loop {
        match action {
            ModemAction::Finish(_) => return query.result.unwrap(),
            other => {
                let reply = bg77.answer(&other);
                assert!(query.reply_is_safe(&reply));
                action = query.step(reply);
            }
        }
    }
}

/// Runs a connection attempt of the supervisor at `now`.
fn ensure_connected(
    supervisor: &mut ConnectionSupervisor,
    bg77: &mut FakeModem,
    client: &MqttClient,
    now: u64,
) -> Result<(), Error> {
    let mut action =
        supervisor.begin_connect(now, client.last_successful_send, client.packet_timeout());
    loop {
        action = match action {
            ConnectAction::Done => return Ok(()),
            ConnectAction::Failed(e) => return Err(e),
            ConnectAction::RegisterCellular(force) => {
                let res = network_registration(bg77, force);
                supervisor.registration_done(res)
            }
            ConnectAction::OpenMqtt => {
                let mut proc = yaroc::mqtt_client::OpenProcedure::new();
                let mut a = proc.start();
                let res = loop {
                    match a {
                        ModemAction::Finish(res) => break res,
                        other => {
                            let reply = bg77.answer(&other);
                            assert!(proc.reply_is_safe(client, &reply));
                            a = proc.step(client, reply);
                        }
                    }
                };
                supervisor.open_done(res)
            }
            ConnectAction::ConnectMqtt => {
                let mut proc = ConnectProcedure::new();
                let mut a = proc.start_opened();
                let res = loop {
                    match a {
                        ModemAction::Finish(res) => break res,
                        other => {
                            let reply = bg77.answer(&other);
                            assert!(proc.reply_is_safe(client, &reply));
                            a = proc.step(client, reply);
                        }
                    }
                };
                supervisor.connect_done(res)
            }
        };
    }
}

const NOW: u64 = 1000;

fn client_with(config: MqttClientConfig, cid: u8) -> MqttClient {
    MqttClient::new(config, cid, NOW)
}

#[test]
fn test_connection_state_default() {
    let state = ConnectionState::default();
    assert_eq!(state, ConnectionState::Disconnected);
    assert!(!state.is_mqtt_connected());
    assert!(!state.is_connecting());
}

#[test]
fn test_connection_state_queries() {
    assert!(ConnectionState::MqttConnected.is_mqtt_connected());
    assert!(!ConnectionState::MqttConnected.is_connecting());

    assert!(!ConnectionState::ConnectingCellular.is_mqtt_connected());
    assert!(ConnectionState::ConnectingCellular.is_connecting());

    assert!(!ConnectionState::ConnectingMqtt.is_mqtt_connected());
    assert!(ConnectionState::ConnectingMqtt.is_connecting());
}

#[test]
fn test_supervisor_handle_events() {
    let mut supervisor = ConnectionSupervisor::new(NOW);
    assert_eq!(supervisor.state(), ConnectionState::Disconnected);

    supervisor.state = ConnectionState::MqttConnected;
    supervisor.handle_event(ConnectionEvent::MqttDisconnect(TcpError::NetworkDisconnected));
    assert_eq!(
        supervisor.state(),
        ConnectionState::TcpError(TcpError::NetworkDisconnected)
    );

    supervisor.handle_event(ConnectionEvent::PdpDeactivate);
    assert_eq!(supervisor.state(), ConnectionState::CellularRegistrationFailed);

    // MqttDisconnect must not overwrite CellularRegistrationFailed
    supervisor.handle_event(ConnectionEvent::MqttDisconnect(TcpError::NetworkDisconnected));
    assert_eq!(supervisor.state(), ConnectionState::CellularRegistrationFailed);
}

#[test]
fn test_supervisor_ensure_connected_ok() {
    let mut supervisor = ConnectionSupervisor::new(NOW);
    let mqtt_client = client_with(MqttClientConfig::default(), 1);

    let mut bg77 = FakeModem::new(&[
        ("AT+CGATT?", "+CGATT: 1"),
        ("AT+CGACT?", "+CGACT: 1,1"),
        ("AT+QMTOPEN?", ""),
        ("AT+QMTCFG=\"timeout\",1,35,2,1", ""),
        ("AT+QMTCFG=\"keepalive\",1,70", ""),
        (
            "AT+QMTCFG=\"will\",1,1,1,0,\"yar/deadbeef/will\",\"test_client\"",
            "",
        ),
        ("AT+QMTOPEN=1,\"broker.emqx.io\",1883", "+QMTOPEN: 1,0"),
        ("AT+QMTCONN?", "+QMTCONN: 1,1"),
        ("AT+QMTCONN=1,\"test_client\"", "+QMTCONN: 1,0,0"),
    ]);

    let res = ensure_connected(&mut supervisor, &mut bg77, &mqtt_client, NOW);

    assert!(res.is_ok());
    assert_eq!(supervisor.state(), ConnectionState::MqttConnected);
    assert!(bg77.all_done());
}

#[test]
fn test_supervisor_force_reattach_rate_limiting() {
    let mut supervisor = ConnectionSupervisor::new(NOW);
    let mqtt_client = client_with(MqttClientConfig::default(), 1);

    supervisor.state = ConnectionState::TcpError(TcpError::FailedToOpenNetwork);
    supervisor.last_connect_attempt = None;

    // Since state is TcpError and last_force_reattach is recent (within 420s),
    // force_reattach evaluates to false, skipping cellular reattachment.
    let mut bg77 = FakeModem::new(&[
        ("AT+QMTOPEN?", ""),
        ("AT+QMTCFG=\"timeout\",1,35,2,1", ""),
        ("AT+QMTCFG=\"keepalive\",1,70", ""),
        (
            "AT+QMTCFG=\"will\",1,1,1,0,\"yar/deadbeef/will\",\"test_client\"",
            "",
        ),
        ("AT+QMTOPEN=1,\"broker.emqx.io\",1883", "+QMTOPEN: 1,0"),
        ("AT+QMTCONN?", "+QMTCONN: 1,1"),
        ("AT+QMTCONN=1,\"test_client\"", "+QMTCONN: 1,0,0"),
    ]);

    // Nothing was sent for longer than the inactivity limit, but the last forced reattach is
    // recent.
    let now = NOW + 300_000;
    let res = ensure_connected(&mut supervisor, &mut bg77, &mqtt_client, now);
    assert!(res.is_ok());
    assert_eq!(supervisor.state(), ConnectionState::MqttConnected);
    assert!(bg77.all_done());
}

#[test]
fn test_supervisor_reconnect_rate_limiting() {
    let mut supervisor = ConnectionSupervisor::new(NOW);
    let mqtt_client = client_with(MqttClientConfig::default(), 1);

    supervisor.set_last_connect_attempt(NOW);
    let mut bg77 = FakeModem::new(&[]);

    let res = ensure_connected(&mut supervisor, &mut bg77, &mqtt_client, NOW);
    assert!(res.is_ok());
    assert_eq!(supervisor.state(), ConnectionState::Disconnected);
}

#[test]
fn test_update_status() {
    let mut supervisor = ConnectionSupervisor::new(NOW);
    let connected = supervisor.update_status(ConnectionState::MqttConnected);
    assert!(connected);
    assert_eq!(supervisor.state(), ConnectionState::MqttConnected);
}

#[test]
fn supervisor_forces_reattach_when_idle_for_long() {
    let mut supervisor = ConnectionSupervisor::new(NOW);
    supervisor.state = ConnectionState::TcpError(TcpError::FailedToOpenNetwork);
    let mqtt_client = client_with(MqttClientConfig::default(), 1);
    let now = NOW + 420_000;
    let action = supervisor.begin_connect(now, mqtt_client.last_successful_send, 35_000);
    assert_eq!(action, ConnectAction::RegisterCellular(true));
    assert_eq!(supervisor.last_force_reattach, now);
    assert_eq!(supervisor.last_connect_attempt, Some(now));
    assert_eq!(supervisor.state(), ConnectionState::ConnectingCellular);
}

#[test]
fn supervisor_registration_failure_and_check_state() {
    let mut supervisor = ConnectionSupervisor::new(NOW);
    let mut bg77 = FakeModem::new(&[("AT+CGATT?", "+CGATT: 0"), ("AT+CGATT=1", "+CME ERROR: 30")]);
    let mqtt_client = client_with(MqttClientConfig::default(), 1);
    let res = ensure_connected(&mut supervisor, &mut bg77, &mqtt_client, NOW);
    assert_eq!(
        res,
        Err(Error::Registration(RegistrationError::NoNetworkService))
    );
    assert_eq!(supervisor.state(), ConnectionState::CellularRegistrationFailed);

    let mut bg77 = FakeModem::new(&[("AT+CGATT?", "+CGATT: 1"), ("AT+CGACT?", "+CGACT: 1,1")]);
    let registered = is_registered(&mut bg77).unwrap();
    assert!(supervisor.check_registration(registered));
    supervisor.check_mqtt(false);
    assert_eq!(
        supervisor.state(),
        ConnectionState::TcpError(TcpError::ServerDisconnect)
    );
    supervisor.check_mqtt(true);
    assert_eq!(supervisor.state(), ConnectionState::MqttConnected);
    assert!(!supervisor.check_registration(false));
    assert_eq!(supervisor.state(), ConnectionState::CellularRegistrationFailed);
}

#[test]
fn test_configure_modem() {
    let mut config = ModemConfig {
        apn: "test-apn".to_string(),
        ..Default::default()
    };
    config.bands.set_ltem_bands(&[3]);

    let mut bg77 = FakeModem::new(&[
        ("AT+QGMR", "fake-firmware"),
        ("AT+CGDCONT=1,\"IP\",\"test-apn\"", ""),
        ("AT+CEREG=2", ""),
        ("AT+QCFG=\"nwscanseq\",00", ""),
        ("AT+QCFG=\"iotopmode\",2,1", ""),
        ("AT+QCFG=\"band\",0,4,80000", ""),
        ("AT+CGATT=1", "+CME ERROR: 30"),
    ]);
    let (res, firmware) = configure(&mut bg77, &config);
    assert!(res.is_ok());
    assert_eq!(firmware.as_deref(), Some("fake-firmware"));
    assert!(bg77.all_done());
}

#[test]
fn configure_modem_without_firmware_line_fails() {
    let config = ModemConfig::default();
    let mut bg77 = FakeModem::new(&[
        ("AT+QGMR", ""),
        ("AT+CGDCONT=1,\"IP\",\"internet.iot\"", ""),
        ("AT+CEREG=2", ""),
        ("AT+QCFG=\"nwscanseq\",00", ""),
        ("AT+QCFG=\"iotopmode\",2,1", ""),
        ("AT+QCFG=\"band\",0,80000,80000", ""),
        ("AT+CGATT=1", ""),
    ]);
    let (res, firmware) = configure(&mut bg77, &config);
    assert_eq!(res, Err(Error::At(AtError::ModemError)));
    assert_eq!(firmware, None);
    assert!(bg77.all_done());
}

#[test]
fn configure_modem_stops_at_an_error() {
    let config = ModemConfig::default();
    let mut bg77 = FakeModem::new(&[("AT+QGMR", "fw"), ("AT+CGDCONT=1,\"IP\",\"internet.iot\"", "ERROR")]);
    let (res, _) = configure(&mut bg77, &config);
    assert_eq!(res, Err(Error::At(AtError::AtErrorResponse)));
    assert!(bg77.all_done());
}

#[test]
fn test_network_registration_cgatt_error_fails() {
    let mut bg77 = FakeModem::new(&[("AT+CGATT?", "+CGATT: 0"), ("AT+CGATT=1", "+CME ERROR: 30")]);
    let res = network_registration(&mut bg77, false);
    assert_eq!(res, Err(Error::Registration(RegistrationError::NoNetworkService)));
    assert!(bg77.all_done());
}

#[test]
fn test_network_registration_cgact_error_fails() {
    let mut bg77 = FakeModem::new(&[
        ("AT+CGATT?", "+CGATT: 1"),
        ("AT+CGACT?", "+CGACT: 1,0"),
        ("AT+CGACT=1,1", "+CME ERROR: 31"),
    ]);
    let res = network_registration(&mut bg77, false);
    assert_eq!(res, Err(Error::Registration(RegistrationError::NetworkTimeout)));
    assert!(bg77.all_done());
}

#[test]
fn test_network_registration_deactivated_context_fails() {
    let mut bg77 = FakeModem::new(&[
        ("AT+CGATT?", "+CGATT: 0"),
        ("AT+CGATT=1", ""),
        ("AT+CGACT?", "+CGACT: 1,0"),
        ("AT+CGACT=1,1", ""),
        ("AT+CGACT?", "+CGACT: 1,0"),
    ]);
    let res = network_registration(&mut bg77, false);
    assert_eq!(res, Err(Error::Registration(RegistrationError::PdpContextFailed)));
    assert!(bg77.all_done());
}

#[test]
fn test_network_registration_success() {
    let mut bg77 = FakeModem::new(&[
        ("AT+CGATT?", "+CGATT: 0"),
        ("AT+CGATT=1", ""),
        ("AT+CGACT?", "+CGACT: 1,1"),
    ]);
    let res = network_registration(&mut bg77, false);
    assert!(res.is_ok());
    assert!(bg77.all_done());
}

#[test]
fn test_network_registration_already_registered_reactivates_context() {
    let mut bg77 = FakeModem::new(&[
        ("AT+CGATT?", "+CGATT: 1"),
        ("AT+CGACT?", "+CGACT: 1,0"),
        ("AT+CGACT=1,1", ""),
        ("AT+CGACT?", "+CGACT: 1,1"),
    ]);
    let res = network_registration(&mut bg77, false);
    assert!(res.is_ok());
    assert!(bg77.all_done());
}

#[test]
fn network_registration_forced_reattach() {
    let mut bg77 = FakeModem::new(&[
        ("ATE0", ""),
        ("AT+CGATT=0", "ERROR"),
        ("AT+CGACT=0,1", ""),
        ("AT+CGATT=1", ""),
        ("AT+CGACT?", "+CGACT: 1,1"),
    ]);
    let res = network_registration(&mut bg77, true);
    assert!(res.is_ok());
    assert!(bg77.all_done());
}

#[test]
fn test_mqtt_wrong_broker_disconnects_first() {
    let client_config = MqttClientConfig {
        url: "correct.broker.io".to_string(),
        name: "test_client".to_string(),
        ..Default::default()
    };

    let mut bg77 = FakeModem::new(&[
        ("AT+QMTOPEN?", "+QMTOPEN: 1,\"wrong.broker.io\",1883"), // Connected to wrong broker
        ("AT+QMTCONN?", "+QMTCONN: 1,3"),
        ("AT+QMTCLOSE=1", "+QMTCLOSE: 1,0"), // Disconnect from wrong broker
        ("AT+QMTCFG=\"timeout\",1,35,2,1", "+QMTCFG: 1,0"),
        ("AT+QMTCFG=\"keepalive\",1,70", "+QMTCFG: 1,0"),
        (
            "AT+QMTCFG=\"will\",1,1,1,0,\"yar/deadbeef/will\",\"test_client\"",
            "+QMTCFG: 1,0",
        ),
        ("AT+QMTOPEN=1,\"correct.broker.io\",1883", "+QMTOPEN: 1,0"),
        ("AT+QMTCONN?", "+QMTCONN: 1,1"),
        ("AT+QMTCONN=1,\"test_client\"", "+QMTCONN: 1,0,0"),
    ]);

    let client = client_with(client_config, 1);
    assert_eq!(connect(&mut bg77, &client), Ok(()));
    assert!(bg77.all_done());
}

#[test]
fn test_mqtt_custom_port() {
    let client_config = MqttClientConfig {
        port: 8883,
        name: "test_client".to_string(),
        ..Default::default()
    };

    let mut bg77 = FakeModem::new(&[
        ("AT+QMTOPEN?", "+QMTOPEN: 1,\"broker.emqx.io\",8883"), // Already connected to correct port
        ("AT+QMTCONN?", "+QMTCONN: 1,3"),
    ]);

    let client = client_with(client_config, 1);
    assert_eq!(connect(&mut bg77, &client), Ok(()));
    assert!(bg77.all_done());
}

#[test]
fn test_mqtt_already_connected() {
    let mut bg77 = FakeModem::new(&[
        ("AT+QMTOPEN?", "+QMTOPEN: 1,\"broker.emqx.io\",1883"),
        ("AT+QMTCONN?", "+QMTCONN: 1,3"),
    ]);

    let client = client_with(MqttClientConfig::default(), 1);
    assert_eq!(connect(&mut bg77, &client), Ok(()));
    assert!(bg77.all_done());
}

#[test]
fn test_mqtt_disconnect_ok() {
    let mut bg77 = FakeModem::new(&[
        ("AT+QMTCONN?", "+QMTCONN: 2,3"),
        ("AT+QMTCLOSE=2", "+QMTCLOSE: 2,0"),
    ]);

    let client = client_with(MqttClientConfig::default(), 2);
    assert_eq!(disconnect(&mut bg77, &client), Ok(()));
    assert!(bg77.all_done());
}

#[test]
fn mqtt_disconnect_when_not_connected_does_nothing_more() {
    let mut bg77 = FakeModem::new(&[("AT+QMTCONN?", "+QMTCONN: 2,1")]);
    let client = client_with(MqttClientConfig::default(), 2);
    assert_eq!(disconnect(&mut bg77, &client), Ok(()));
    assert!(bg77.all_done());
}

#[test]
fn test_mqtt_send_ok() {
    let mut bg77 = FakeModem::new(&[("AT+QMTPUB=2,0,0,0,\"yar/deadbeef/tpc\",1", "")]);
    bg77.add_pure_interactions(&[("+QMTPUB", true, "+QMTPUB: 2,0,0")]);
    let client = client_with(MqttClientConfig::default(), 2);
    let res = send_message(&mut bg77, &client, "tpc", &[47], MqttQos::Q0, 0);
    assert_eq!(res, Ok(()));
    assert!(bg77.all_done());
}

#[test]
fn test_mqtt_send_timeout() {
    let mut bg77 = FakeModem::new(&[("AT+QMTPUB=2,0,0,0,\"yar/deadbeef/tpc\",1", "")]);
    bg77.add_pure_interactions(&[("+QMTPUB", true, "+QMTPUB: 2,0,2")]);
    let client = client_with(MqttClientConfig::default(), 2);
    let res = send_message(&mut bg77, &client, "tpc", &[47], MqttQos::Q0, 0);
    assert_eq!(res, Err(Error::TimeoutError));
    assert!(bg77.all_done());
}

#[test]
fn mqtt_send_qos1_waits_for_no_report() {
    let mut bg77 = FakeModem::new(&[("AT+QMTPUB=2,7,1,0,\"yar/deadbeef/p\",3", "")]);
    bg77.add_pure_interactions(&[("+QMTPUB", false, ">")]);
    let client = client_with(MqttClientConfig::default(), 2);
    let res = send_message(&mut bg77, &client, "p", &[1, 2, 3], MqttQos::Q1, 7);
    assert_eq!(res, Ok(()));
    assert!(bg77.all_done());
}

#[test]
fn mqtt_send_refuses_too_long_command() {
    let mut bg77 = FakeModem::new(&[]);
    let client = client_with(MqttClientConfig::default(), 2);
    let topic = "t".repeat(90);
    let res = send_message(&mut bg77, &client, &topic, &[1], MqttQos::Q0, 0);
    assert_eq!(res, Err(Error::FormatError));
}

#[test]
fn test_qmtpub_handler_published() {
    // Client ID 0, Message ID 1, Status 0 (Published), Retries 0
    let response = CommandResponse::new("+QMTPUB: 0,1,0").unwrap();
    let report = qmtpub_report(&response, 0);
    assert!(report.handled);
    assert!(report.published);
    let expected_status = MqttStatus {
        msg_id: 1,
        code: StatusCode::Published,
    };
    assert_eq!(report.status, Some(expected_status));

    // The same as above, but for client ID 1
    let response = CommandResponse::new("+QMTPUB: 1,1,0").unwrap();
    // Not handled, because it's for a different client
    let report = qmtpub_report(&response, 0);
    assert!(!report.handled);
    assert!(!report.published);
    assert_eq!(report.status, None);
}

#[test]
fn test_qmtpub_handler_timeout() {
    // Client ID 0, Message ID 2, Status 2 (Timeout)
    let response = CommandResponse::new("+QMTPUB: 0,2,2").unwrap();
    let report = qmtpub_report(&response, 0);
    assert!(report.handled);
    assert!(!report.published);
    let expected_status = MqttStatus {
        msg_id: 2,
        code: StatusCode::Timeout,
    };
    assert_eq!(report.status, Some(expected_status));
}

#[test]
fn qmtpub_report_with_retries_and_qos0() {
    let response = CommandResponse::new("+QMTPUB: 0,3,1,4").unwrap();
    let report = qmtpub_report(&response, 0);
    assert_eq!(
        report.status,
        Some(MqttStatus {
            msg_id: 3,
            code: StatusCode::Retrying(4)
        })
    );
    let response = CommandResponse::new("+QMTPUB: 0,0,0").unwrap();
    let report = qmtpub_report(&response, 0);
    assert!(!report.handled);
    assert!(report.published);
    assert_eq!(report.status, None);
}

#[test]
fn urcs_are_routed() {
    let stat = CommandResponse::new("+QMTSTAT: 0,2").unwrap();
    assert_eq!(
        mqtt_urc(&stat, 0),
        MqttUrc::Disconnected(ConnectionEvent::MqttDisconnect(TcpError::Unknown(1)))
    );
    assert!(mqtt_urc(&stat, 0).handled());
    let other = CommandResponse::new("+CEREG: 2,1").unwrap();
    assert_eq!(mqtt_urc(&other, 0), MqttUrc::NotHandled);
    assert!(!mqtt_urc(&other, 0).handled());
    let pdp = CommandResponse::new("+QIURC: \"pdpdeact\",1").unwrap();
    assert_eq!(modem_urc(&pdp), ModemUrc::PdpDeactivated);
    assert_eq!(
        mqtt_urc(&pdp, 0),
        MqttUrc::PdpDeactivated(ConnectionEvent::PdpDeactivate)
    );
    assert!(mqtt_urc(&pdp, 0).handled());
    let cereg = CommandResponse::new("+CEREG: 2,1,\"2008\",\"2B2078\"").unwrap();
    assert_eq!(modem_urc(&cereg), ModemUrc::Handled);
    assert_eq!(mqtt_urc(&cereg, 0), MqttUrc::Registration);
    assert!(mqtt_urc(&cereg, 0).handled());
    assert_eq!(modem_urc(&other), ModemUrc::NotHandled);
    let unknown = CommandResponse::new("+QMTRECV: 0,1").unwrap();
    assert_eq!(mqtt_urc(&unknown, 0), MqttUrc::NotHandled);
}

#[test]
fn test_mqtt_qmtopen_tcp_error() {
    let mut bg77 = FakeModem::new(&[
        ("AT+QMTOPEN?", ""),
        ("AT+QMTCFG=\"timeout\",1,35,2,1", "+QMTCFG: 1,0"),
        ("AT+QMTCFG=\"keepalive\",1,70", "+QMTCFG: 1,0"),
        (
            "AT+QMTCFG=\"will\",1,1,1,0,\"yar/deadbeef/will\",\"test_client\"",
            "+QMTCFG: 1,0",
        ),
        ("AT+QMTOPEN=1,\"broker.emqx.io\",1883", "+QMTOPEN: 1,-1"),
    ]);

    let client = client_with(MqttClientConfig::default(), 1);
    assert_eq!(
        connect(&mut bg77, &client),
        Err(Error::MqttTcp(TcpError::FailedToOpenNetwork))
    );
    assert!(bg77.all_done());
}

#[test]
fn test_mqtt_qmtopen_domain_name_error() {
    let mut bg77 = FakeModem::new(&[
        ("AT+QMTOPEN?", ""),
        ("AT+QMTCFG=\"timeout\",1,35,2,1", "+QMTCFG: 1,0"),
        ("AT+QMTCFG=\"keepalive\",1,70", "+QMTCFG: 1,0"),
        (
            "AT+QMTCFG=\"will\",1,1,1,0,\"yar/deadbeef/will\",\"test_client\"",
            "+QMTCFG: 1,0",
        ),
        ("AT+QMTOPEN=1,\"broker.emqx.io\",1883", "+QMTOPEN: 1,4"),
    ]);

    let client = client_with(MqttClientConfig::default(), 1);
    assert_eq!(
        connect(&mut bg77, &client),
        Err(Error::MqttTcp(TcpError::DomainNameError))
    );
    assert!(bg77.all_done());
}

#[test]
fn test_mqtt_qmtconn_mqtt_error() {
    let mut bg77 = FakeModem::new(&[
        ("AT+QMTOPEN?", "+QMTOPEN: 1,\"broker.emqx.io\",1883"),
        ("AT+QMTCONN?", "+QMTCONN: 1,1"),
        ("AT+QMTCONN=1,\"test_client\"", "+QMTCONN: 1,0,2"),
    ]);

    let client = client_with(MqttClientConfig::default(), 1);
    assert_eq!(
        connect(&mut bg77, &client),
        Err(Error::MqttConnect(ConnectError::IdentifierRejected))
    );
    assert!(bg77.all_done());
}

#[test]
fn test_mqtt_qmtconn_retransmission_timeout() {
    let mut bg77 = FakeModem::new(&[
        ("AT+QMTOPEN?", "+QMTOPEN: 1,\"broker.emqx.io\",1883"),
        ("AT+QMTCONN?", "+QMTCONN: 1,1"),
        ("AT+QMTCONN=1,\"test_client\"", "+QMTCONN: 1,1,0"),
    ]);

    let client = client_with(MqttClientConfig::default(), 1);
    assert_eq!(
        connect(&mut bg77, &client),
        Err(Error::MqttConnect(ConnectError::RetransmissionTimeout))
    );
    assert!(bg77.all_done());
}

#[test]
fn mqtt_connect_with_credentials() {
    let client_config = MqttClientConfig {
        credentials: Some(("user".to_string(), "pass".to_string())),
        ..Default::default()
    };
    let mut bg77 = FakeModem::new(&[
        ("AT+QMTOPEN?", "+QMTOPEN: 1,\"broker.emqx.io\",1883"),
        ("AT+QMTCONN?", "+QMTCONN: 1,1"),
        ("AT+QMTCONN=1,\"test_client\",\"user\",\"pass\"", "+QMTCONN: 1,0,0"),
    ]);
    let client = client_with(client_config, 1);
    assert_eq!(connect(&mut bg77, &client), Ok(()));
    assert!(bg77.all_done());
}

#[test]
fn mqtt_is_connected_reads_the_status() {
    let client = client_with(MqttClientConfig::default(), 1);
    let lines = vec![FromModem::try_from("+QMTCONN: 1,3").unwrap(), FromModem::Okay];
    assert_eq!(client.is_connected(Ok(AtResponse::new(lines, "+QMTCONN?"))), Ok(true));
    let lines = vec![FromModem::try_from("+QMTCONN: 1,2").unwrap(), FromModem::Okay];
    assert_eq!(client.is_connected(Ok(AtResponse::new(lines, "+QMTCONN?"))), Ok(false));
    let lines = vec![FromModem::try_from("+QMTCONN: 1,9").unwrap(), FromModem::Okay];
    assert_eq!(
        client.is_connected(Ok(AtResponse::new(lines, "+QMTCONN?"))),
        Err(Error::At(AtError::ModemError))
    );
    assert_eq!(
        client.is_connected(Err(AtError::TimeoutError)),
        Err(Error::At(AtError::TimeoutError))
    );
}

#[test]
fn test_roaming_cell_id() {
    let mut bg77 = FakeModem::new(&[("AT+CEREG?", "+CEREG: 2,5,\"2008\",\"2B2078\",9")]);
    let mut query = SignalQuery::new();
    query.state = SignalState::CellId;
    let reply = bg77.answer(&ModemAction::Call("+CEREG?".to_string(), None));
    assert!(query.reply_is_safe(&reply));
    query.step(reply);
    let cell_id = query.result.unwrap().unwrap().cellid.unwrap();
    assert_eq!(cell_id, u32::from_str_radix("2B2078", 16).unwrap());
}

#[test]
fn test_nbiot_celevel_fallback() {
    // Case 1: +QCFG="celevel" fails / returns empty response -> defaults to NbIotEcl0
    let mut bg77_fail = FakeModem::new(&[
        ("AT+QCSQ", "+QCSQ: \"NBIoT\",-107,-134,35,-20"),
        ("AT+QCFG=\"celevel\"", ""),
        ("AT+CEREG?", "+CEREG: 2,1,\"2008\",\"2B2078\",9"),
    ]);
    let signal_info_fail = signal_info(&mut bg77_fail).unwrap();
    assert_eq!(signal_info_fail.network_type, CellNetworkType::NbIotEcl0);

    // Case 2: +QCFG="celevel" returns an unexpected level (e.g. 3) -> defaults to NbIotEcl0
    let mut bg77_invalid = FakeModem::new(&[
        ("AT+QCSQ", "+QCSQ: \"NBIoT\",-107,-134,35,-20"),
        ("AT+QCFG=\"celevel\"", "+QCFG: \"celevel\",3"),
        ("AT+CEREG?", "+CEREG: 2,1,\"2008\",\"2B2078\",9"),
    ]);
    let signal_info_invalid = signal_info(&mut bg77_invalid).unwrap();
    assert_eq!(signal_info_invalid.network_type, CellNetworkType::NbIotEcl0);
}

#[test]
fn test_qcsq_noservice() {
    let mut bg77 = FakeModem::new(&[("AT+QCSQ", "+QCSQ: \"NOSERVICE\"")]);
    let res = signal_info(&mut bg77);
    assert_eq!(res, Err(RegistrationError::NoNetworkService));
}

#[test]
fn signal_info_of_nbiot_and_ltem() {
    let mut bg77 = FakeModem::new(&[
        ("AT+QCSQ", "+QCSQ: \"NBIoT\",-107,-134,35,-20"),
        ("AT+QCFG=\"celevel\"", "+QCFG: \"celevel\",1"),
        ("AT+CEREG?", "+CEREG: 2,1,\"2008\",\"2B2078\",9"),
    ]);
    let info = signal_info(&mut bg77).unwrap();
    assert_eq!(info.network_type, CellNetworkType::NbIotEcl1);
    assert_eq!(info.rsrp_dbm, -134);
    assert_eq!(info.snr_cb, -130);
    assert_eq!(info.cellid, Some(0x2B2078));
    assert!(bg77.all_done());

    let mut bg77 = FakeModem::new(&[
        ("AT+QCSQ", "+QCSQ: \"eMTC\",-100,-90,110,-120"),
        ("AT+CEREG?", "+CEREG: 2,3,\"2008\",\"2B2078\",9"),
    ]);
    let info = signal_info(&mut bg77).unwrap();
    assert_eq!(info.network_type, CellNetworkType::LteM);
    assert_eq!(info.rsrp_dbm, -90);
    assert_eq!(info.snr_cb, 20);
    assert_eq!(info.cellid, None);
    assert!(bg77.all_done());
}

#[test]
fn registration_error_codes() {
    assert_eq!(
        RegistrationError::from_error(AtError::CmeError(30)),
        RegistrationError::NoNetworkService
    );
    assert_eq!(
        RegistrationError::from_error(AtError::CmeError(10)),
        RegistrationError::SimNotInserted
    );
    assert_eq!(
        RegistrationError::from_error(AtError::CmeError(99)),
        RegistrationError::Unknown(99)
    );
    assert_eq!(
        RegistrationError::from_error(AtError::AtErrorResponse),
        RegistrationError::AtErrorResponse
    );
    assert_eq!(
        RegistrationError::from_error(AtError::TimeoutError),
        RegistrationError::TimeoutError
    );
    assert_eq!(
        RegistrationError::from_error(AtError::ParseError),
        RegistrationError::Unknown(999)
    );
}

#[test]
fn connection_state_of_errors() {
    assert_eq!(
        ConnectionState::from_error(Error::MqttTcp(TcpError::DomainNameError)),
        ConnectionState::TcpError(TcpError::DomainNameError)
    );
    assert_eq!(
        ConnectionState::from_error(Error::MqttConnect(ConnectError::NotAuthorized)),
        ConnectionState::ConnectError(ConnectError::NotAuthorized)
    );
    assert!(ConnectionState::TcpError(TcpError::Unknown(3)).is_mqtt_error());
    assert!(ConnectionState::ConnectingMqtt.is_cellular_connected());
    assert!(!ConnectionState::ConnectingCellular.is_cellular_connected());
}

#[test]
fn band_masks() {
    let mut bands = yaroc::modem::LteBands::default();
    bands.set_ltem_bands(&[1, 3, 20, 0, 129, 128]);
    assert_eq!(bands.ltem, (1u128 << 0) | (1u128 << 2) | (1u128 << 19) | (1u128 << 127));
    assert_eq!(bands.nbiot, 0);
    bands.set_nbiot_bands(&[8]);
    assert_eq!(bands.nbiot, 1u128 << 7);
    bands.set_ltem_bands(&[]);
    assert_eq!(bands.ltem, 0);
    let config = ModemConfig::default();
    assert_eq!(config.apn, "internet.iot");
    assert_eq!(config.bands.ltem, 0x80000);
    assert_eq!(config.bands.nbiot, 0x80000);
}

#[test]
fn turn_on_when_modem_answers() {
    let mut turn_on = yaroc::modem::TurnOn::new();
    let mut bg77 = FakeModem::new(&[("ATE0", "")]);
    let action = turn_on.start();
    let reply = bg77.answer(&action);
    assert_eq!(turn_on.step(reply), ModemAction::Finish(Ok(())));
    assert!(bg77.all_done());
}

#[test]
fn turn_on_presses_the_power_key() {
    let mut turn_on = yaroc::modem::TurnOn::new();
    let mut bg77 = FakeModem::new(&[("ATE0", "ERROR"), ("AT+CFUN=1,0", ""), ("ATE0", "")]);
    let mut actions = Vec::new();
    let mut action = turn_on.start();
    loop {
        action = match action {
            ModemAction::Finish(res) => {
                assert_eq!(res, Ok(()));
                break;
            }
            ModemAction::SetPin(_) | ModemAction::Sleep(_) => {
                actions.push(action);
                turn_on.resume()
            }
            ModemAction::Read(t) => {
                actions.push(ModemAction::Read(t));
                turn_on.step(Ok(AtResponse::new(vec![FromModem::Okay], "")))
            }
            other => {
                let reply = bg77.answer(&other);
                turn_on.step(reply)
            }
        };
    }
    assert_eq!(
        actions,
        vec![
            ModemAction::SetPin(false),
            ModemAction::Sleep(1000),
            ModemAction::SetPin(true),
            ModemAction::Sleep(2000),
            ModemAction::SetPin(false),
            ModemAction::Read(1000),
            ModemAction::Read(5000),
        ]
    );
    assert!(bg77.all_done());
}

#[test]
fn turn_on_fails_when_full_function_fails() {
    let mut turn_on = yaroc::modem::TurnOn::new();
    turn_on.state = yaroc::modem::TurnOnState::FullFunction;
    assert_eq!(
        turn_on.step(Err(AtError::TimeoutError)),
        ModemAction::Finish(Err(Error::At(AtError::TimeoutError)))
    );
}

#[test]
fn answer_lines_are_collected_until_terminal() {
    let mut lines = Vec::new();
    assert_eq!(
        yaroc::at::take_line(&mut lines, FromModem::try_from("+CGATT: 1").unwrap()),
        Ok(false)
    );
    assert_eq!(yaroc::at::take_line(&mut lines, FromModem::Okay), Ok(true));
    assert_eq!(lines.len(), 2);
    assert_eq!(yaroc::at::take_line(&mut lines, FromModem::Okay), Ok(true));
    assert_eq!(yaroc::at::take_line(&mut lines, FromModem::Okay), Ok(true));
    assert_eq!(
        yaroc::at::take_line(&mut lines, FromModem::Okay),
        Err(Error::BufferTooSmallError)
    );
    assert_eq!(lines.len(), 4);
}

#[test]
fn band_masks_ignore_order_repeats_and_previous() {
    let mut a = yaroc::modem::LteBands::default();
    a.set_nbiot_bands(&[5, 8, 200]);
    a.set_nbiot_bands(&[20, 3, 3, 0]);
    let mut b = yaroc::modem::LteBands::default();
    b.set_nbiot_bands(&[3, 20]);
    assert_eq!(a, b);
    assert_eq!(a.nbiot, (1u128 << 2) | (1u128 << 19));
}

#[test]
fn reconnections_are_rate_limited() {
    assert!(reconnect_due(false, None, 0));
    assert!(!reconnect_due(false, Some(1_000), 60_999));
    assert!(reconnect_due(false, Some(1_000), 61_000));
    assert!(reconnect_due(true, Some(1_000), 1_001));
}

#[test]
fn test_basic_system_info() {
    let mut bg77 = FakeModem::new(&[
        ("AT+QLTS=2", "+QLTS: \"2024/12/24,10:48:23+04,0\""),
        ("AT+QCSQ", "+QCSQ: \"NBIoT\",-107,-134,35,-20"),
        ("AT+QCFG=\"celevel\"", "+QCFG: \"celevel\",1"),
        ("AT+CEREG?", "+CEREG: 2,1,\"2008\",\"2B2078\",9"),
    ]);
    let clock = bg77.call_at("+QLTS=2").unwrap();
    let clock = clock.response::<u8>(None).unwrap().values()[0].to_string();
    let timestamp = yaroc::system_info::parse_qlts(&clock).unwrap();

    let signal_info = signal_info(&mut bg77).unwrap();
    assert_eq!(signal_info.network_type, CellNetworkType::NbIotEcl1);
    assert_eq!(signal_info.rsrp_dbm, -134);
    assert_eq!(signal_info.snr_cb, -130);
    assert_eq!(
        signal_info.cellid,
        Some(u32::from_str_radix("2B2078", 16).unwrap())
    );
    // 2024-12-24 10:48:23+01:00
    assert_eq!(timestamp.local.date, 739244);
    assert_eq!(timestamp.local.secs, 10 * 3600 + 48 * 60 + 23);
    assert_eq!(timestamp.offset, 3600);
    assert!(bg77.all_done());
}

#[test]
fn test_mqtt_send_short_message_ok() {
    let mut bg77 = FakeModem::new(&[("AT+QMTPUB=1,0,0,0,\"yar/deadbeef/topic\",5", "")]);
    bg77.add_pure_interactions(&[("+QMTPUB", true, "+QMTPUB: 0,0,0")]);
    let client = client_with(MqttClientConfig::default(), 1);
    let res = send_message(&mut bg77, &client, "topic", b"hello", MqttQos::Q0, 0);
    assert!(res.is_ok());
    assert!(bg77.all_done());
}
