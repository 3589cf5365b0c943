use yaroc::backoff::{
    attempt_outcome, backoff_step, retry_decision, AttemptResult, BackoffAction, BackoffCommand,
    BackoffRetries, MqttEvent, PunchMsg, RetryAction, SendEvent, WaitEvent,
};
use yaroc::error::Error;
use yaroc::mqtt::{ConnectError, MqttQos, MqttStatus, QmtconnStatus, StatusCode, TcpError};
use yaroc::mqtt_client::{MqttClient, MqttClientConfig, MqttConfig};
use yaroc::usb::{
    log_action, read_step, respond_plan, write_packets, LogAction, LogKind, LogRead,
    UsbCommandKind, UsbPacketReader, UsbStep,
};

#[test]
fn test_mqtt_status_error() {
    let status = MqttStatus::mqtt_error(42);
    assert_eq!(status.msg_id, 42);
    assert_eq!(status.code, StatusCode::MqttError);
}

#[test]
fn test_mqtt_client_config_update() {
    let mut client_config = MqttClientConfig::default();
    let reduced_config = MqttConfig {
        url: "mqtt.example.com".to_string(),
        credentials: Some(("my_user".to_string(), "my_password".to_string())),
        packet_timeout: 10_000,
        port: 8883,
    };

    client_config.update(reduced_config.clone());

    assert_eq!(client_config.url, "mqtt.example.com");
    assert_eq!(
        client_config.credentials,
        Some(("my_user".to_string(), "my_password".to_string()))
    );
    assert_eq!(client_config.packet_timeout, 10_000);
    assert_eq!(client_config.port, 8883);
    // Ensure name and mac address did not change
    assert_eq!(client_config.name, "test_client");
    assert_eq!(client_config.mac_address, "deadbeef");
}

#[test]
fn mqtt_client_keeps_latest_send() {
    let mut client = MqttClient::new(MqttClientConfig::default(), 0, 100);
    assert_eq!(client.last_successful_send(None), 100);
    assert_eq!(client.last_successful_send(Some(250)), 250);
    assert_eq!(client.last_successful_send(Some(200)), 250);
    assert_eq!(client.packet_timeout(), 35_000);
    client.update_reduced_config(MqttConfig {
        packet_timeout: 5_000,
        ..Default::default()
    });
    assert_eq!(client.packet_timeout(), 5_000);
    assert_eq!(client.config.name, "test_client");
}

#[test]
fn qmtpub_status_codes() {
    assert_eq!(MqttStatus::from_bg77_qmtpub(5, 0, None).code, StatusCode::Published);
    assert_eq!(MqttStatus::from_bg77_qmtpub(5, 1, Some(&3)).code, StatusCode::Retrying(3));
    assert_eq!(MqttStatus::from_bg77_qmtpub(5, 1, None).code, StatusCode::Retrying(0));
    assert_eq!(MqttStatus::from_bg77_qmtpub(5, 2, None).code, StatusCode::Timeout);
    assert_eq!(MqttStatus::from_bg77_qmtpub(5, 7, None).code, StatusCode::Unknown);
    assert_eq!(MqttStatus::from_bg77_qmtpub(5, 7, None).msg_id, 5);
    assert_eq!(MqttQos::Q0.as_u8(), 0);
    assert_eq!(MqttQos::Q1.as_u8(), 1);
}

#[test]
fn tcp_and_connect_error_codes() {
    assert_eq!(TcpError::from_code(-1), TcpError::FailedToOpenNetwork);
    assert_eq!(TcpError::from_code(1), TcpError::WrongParameter);
    assert_eq!(TcpError::from_code(2), TcpError::IdentifierOccupied);
    assert_eq!(TcpError::from_code(3), TcpError::PdpContextFailed);
    assert_eq!(TcpError::from_code(4), TcpError::DomainNameError);
    assert_eq!(TcpError::from_code(5), TcpError::NetworkDisconnected);
    assert_eq!(TcpError::from_code(9), TcpError::Unknown(9));

    assert_eq!(ConnectError::from_code(0, 1), ConnectError::UnacceptableProtocolVersion);
    assert_eq!(ConnectError::from_code(0, 2), ConnectError::IdentifierRejected);
    assert_eq!(ConnectError::from_code(1, 3), ConnectError::ServerUnavailable);
    assert_eq!(ConnectError::from_code(0, 4), ConnectError::BadUsernameOrPassword);
    assert_eq!(ConnectError::from_code(0, 5), ConnectError::NotAuthorized);
    assert_eq!(ConnectError::from_code(0, 6), ConnectError::Unknown(6));
    assert_eq!(ConnectError::from_code(1, 0), ConnectError::RetransmissionTimeout);
    assert_eq!(ConnectError::from_code(2, 0), ConnectError::PacketSendFailed);
    assert_eq!(ConnectError::from_code(7, 0), ConnectError::Unknown(7));

    assert_eq!(QmtconnStatus::try_from(1), Some(QmtconnStatus::Initializing));
    assert_eq!(QmtconnStatus::try_from(3), Some(QmtconnStatus::Connected));
    assert_eq!(QmtconnStatus::try_from(0), None);
    assert_eq!(QmtconnStatus::try_from(5), None);
}

#[test]
fn test_write_small_packet() {
    let small_data = [1u8; 10];
    let packets = write_packets(&small_data);
    assert_eq!(packets, vec![&[1u8; 10][..]]);
}

#[test]
fn test_write_packet_chunking() {
    let large_data = [2u8; 70];
    let packets = write_packets(&large_data);
    assert_eq!(packets, vec![&[2u8; 64][..], &[2u8; 6][..]]);
}

#[test]
fn test_write_packet_exact_chunking() {
    let large_data = [2u8; 128];
    let packets = write_packets(&large_data);
    let empty: &[u8] = &[];
    assert_eq!(packets, vec![&[2u8; 64][..], &[2u8; 64][..], empty]);
}

#[test]
fn packets_are_joined_until_a_short_one() {
    assert_eq!(read_step(0, 64), None);
    assert_eq!(read_step(64, 64), None);
    assert_eq!(read_step(128, 6), Some(134));
    assert_eq!(read_step(128, 0), Some(128));
    let empty: Vec<&[u8]> = write_packets(&[]);
    assert_eq!(empty.len(), 1);
    assert!(empty[0].is_empty());
}

#[test]
fn backoff_slots_are_taken_from_the_end() {
    let mut retries = BackoffRetries::new(1000, 20_000, 3);
    assert_eq!(retries.send_punch_timeout(), 20_000);
    assert_eq!(retries.vacant_idx(), Some(3));
    let punch = [7u8; 20];
    let first = retries.handle_publish_request(punch, 11).unwrap();
    assert_eq!(first, PunchMsg::new(punch, 11, 3, 1000));
    let second = retries.handle_publish_request(punch, 12).unwrap();
    assert_eq!(second.msg_id, 2);
    let third = retries.handle_publish_request(punch, 13).unwrap();
    assert_eq!(third.msg_id, 1);
    // Slot 0 is never handed out: message ID 0 is for QoS 0.
    assert_eq!(retries.handle_publish_request(punch, 14), None);
    assert_eq!(
        retries.handle_command(BackoffCommand::PublishPunch(punch, 15)),
        BackoffAction::QueueFull
    );
    retries.delete_msg(2);
    assert_eq!(retries.vacant_idx(), Some(2));
    assert_eq!(
        retries.handle_command(BackoffCommand::PunchPublished(11, 3)),
        BackoffAction::Nothing
    );
    assert_eq!(retries.vacant_idx(), Some(3));
    match retries.handle_command(BackoffCommand::PublishPunch(punch, 16)) {
        BackoffAction::Spawn(msg) => assert_eq!(msg.msg_id, 3),
        other => panic!("unexpected {other:?}"),
    }
}

#[test]
fn backoff_commands_are_passed_on() {
    let mut retries = BackoffRetries::new(1000, 20_000, 3);
    let status = MqttStatus::from_bg77_qmtpub(2, 2, None);
    assert_eq!(
        retries.handle_command(BackoffCommand::Status(status)),
        BackoffAction::Signal(2, StatusCode::Timeout)
    );
    assert_eq!(
        retries.handle_command(BackoffCommand::MqttConnected),
        BackoffAction::Broadcast(MqttEvent::Connect)
    );
    assert_eq!(
        retries.handle_command(BackoffCommand::MqttDisconnected),
        BackoffAction::Broadcast(MqttEvent::Disconnect)
    );
}

#[test]
fn backoff_grows_and_shrinks() {
    let mut msg = PunchMsg::new([0u8; 20], 1, 1, 1000);
    assert_eq!(msg.next_send(5), 1005);
    assert!(backoff_step(&mut msg, WaitEvent::TimerFired));
    assert_eq!(msg.backoff, 2000);
    assert!(!backoff_step(&mut msg, WaitEvent::Mqtt(MqttEvent::Disconnect)));
    assert_eq!(msg.backoff, 2000);
    assert!(backoff_step(&mut msg, WaitEvent::Mqtt(MqttEvent::Connect)));
    assert_eq!(msg.backoff, 1000);
    assert_eq!(PunchMsg::default().backoff, 1000);
}

#[test]
fn attempts_and_retries() {
    assert_eq!(attempt_outcome(SendEvent::Status(StatusCode::Published)), Some(true));
    assert_eq!(attempt_outcome(SendEvent::Status(StatusCode::Timeout)), Some(false));
    assert_eq!(attempt_outcome(SendEvent::Status(StatusCode::MqttError)), Some(false));
    assert_eq!(attempt_outcome(SendEvent::Status(StatusCode::Retrying(2))), None);
    assert_eq!(attempt_outcome(SendEvent::Status(StatusCode::Unknown)), None);
    assert_eq!(attempt_outcome(SendEvent::Mqtt(MqttEvent::Disconnect)), Some(false));
    assert_eq!(attempt_outcome(SendEvent::Mqtt(MqttEvent::Connect)), None);
    assert_eq!(retry_decision(AttemptResult::Published), RetryAction::ReportPublished);
    assert_eq!(retry_decision(AttemptResult::TimedOut), RetryAction::RetryNow);
    assert_eq!(retry_decision(AttemptResult::Failed), RetryAction::WaitAndRetry);
}

#[test]
fn usb_answers_announce_slow_steps() {
    assert_eq!(respond_plan(UsbCommandKind::Handshake), vec![UsbStep::Handshake]);
    assert_eq!(respond_plan(UsbCommandKind::GetConfig), vec![UsbStep::SendConfig]);
    assert_eq!(
        respond_plan(UsbCommandKind::ConfigureModem),
        vec![
            UsbStep::StoreConfig,
            UsbStep::PartialOk(155_000),
            UsbStep::ApplyConfig,
            UsbStep::Done
        ]
    );
    assert_eq!(
        respond_plan(UsbCommandKind::ConfigureMqtt),
        vec![
            UsbStep::StoreConfig,
            UsbStep::PartialOk(125_000),
            UsbStep::ApplyConfig,
            UsbStep::Done
        ]
    );
    assert_eq!(
        respond_plan(UsbCommandKind::ConfigureDevice),
        vec![UsbStep::ApplyConfig, UsbStep::Done]
    );
    assert_eq!(
        respond_plan(UsbCommandKind::EraseFlash),
        vec![UsbStep::PartialOk(8_000), UsbStep::EraseFlash, UsbStep::Done]
    );
    assert_eq!(
        respond_plan(UsbCommandKind::GetMiniCallHomeLogs),
        vec![UsbStep::SendLogs(3_000, LogKind::MiniCallHome), UsbStep::Done]
    );
    assert_eq!(
        respond_plan(UsbCommandKind::GetLoggedAtResponseLogs),
        vec![UsbStep::SendLogs(5_000, LogKind::AtResponse), UsbStep::Done]
    );
}

#[test]
fn packets_join_back_into_the_message() {
    for len in [0usize, 1, 63, 64, 65, 127, 128, 200, 448] {
        let message: Vec<u8> = (0..len).map(|i| (i % 251) as u8).collect();
        let packets = write_packets(&message);
        let mut reader = UsbPacketReader::new(());
        let mut joined = None;
        for (k, p) in packets.iter().enumerate() {
            assert!(joined.is_none());
            assert!(reader.free_space() >= p.len());
            joined = reader.take_packet(p);
            assert_eq!(joined.is_some(), k + 1 == packets.len());
        }
        assert_eq!(joined, Some(message));
        assert_eq!(reader.free_space(), 512);
    }
}

#[test]
fn flash_keys() {
    assert_eq!(yaroc::flash::ValueIndex::DeviceConfig.key(), 0);
    assert_eq!(yaroc::flash::ValueIndex::ModemConfig.key(), 1);
    assert_eq!(yaroc::flash::ValueIndex::MqttConfig.key(), 2);
    let cmd = yaroc::connection::SendPunchCommand::ConnectionSupervisorEvent(
        yaroc::connection::ConnectionEvent::PdpDeactivate,
    );
    assert_ne!(cmd, yaroc::connection::SendPunchCommand::SynchronizeTime);
}

#[test]
fn log_listings_send_skip_and_end() {
    assert_eq!(log_action(LogKind::AtResponse, LogRead::Entry(384)), LogAction::Send);
    assert_eq!(log_action(LogKind::AtResponse, LogRead::Entry(385)), LogAction::Skip);
    assert_eq!(log_action(LogKind::AtResponse, LogRead::Exhausted), LogAction::Finish);
    assert_eq!(
        log_action(LogKind::AtResponse, LogRead::Failed(Error::FlashError)),
        LogAction::Finish
    );
    assert_eq!(log_action(LogKind::MiniCallHome, LogRead::Entry(54)), LogAction::Send);
    assert_eq!(
        log_action(LogKind::MiniCallHome, LogRead::Entry(55)),
        LogAction::Fail(Error::BufferTooSmallError)
    );
    assert_eq!(log_action(LogKind::MiniCallHome, LogRead::Exhausted), LogAction::Finish);
    assert_eq!(
        log_action(LogKind::MiniCallHome, LogRead::Failed(Error::FlashError)),
        LogAction::Fail(Error::FlashError)
    );
}

#[test]
fn slots_are_reused_after_publication() {
    let mut retries = BackoffRetries::new(1000, 20_000, 2);
    let punch = [0u8; 20];
    let ids: Vec<u16> = (0..3)
        .map(|i| match retries.handle_command(BackoffCommand::PublishPunch(punch, i)) {
            BackoffAction::Spawn(msg) => msg.msg_id,
            _ => 0,
        })
        .collect();
    assert_eq!(ids, vec![2, 1, 0]);
    assert_eq!(
        retries.handle_command(BackoffCommand::PunchPublished(0, 2)),
        BackoffAction::Nothing
    );
    match retries.handle_command(BackoffCommand::PublishPunch(punch, 3)) {
        BackoffAction::Spawn(msg) => assert_eq!(msg.msg_id, 2),
        other => panic!("unexpected {other:?}"),
    }
    assert_eq!(
        retries.handle_command(BackoffCommand::PublishPunch(punch, 4)),
        BackoffAction::QueueFull
    );
}
