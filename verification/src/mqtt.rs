//! MQTT status codes and the error codes of the BG77 MQTT commands.
use vstd::prelude::*;

verus! {

/// The state of a published message, as the modem reports it.
#[derive(Debug, Clone, Copy, PartialEq, Eq, Structural)]
pub enum StatusCode {
    Published,
    /// The modem retries; it has tried the given number of times.
    Retrying(u8),
    Timeout,
    MqttError,
    Unknown,
}

/// The status of a published message.
#[derive(Debug, Clone, Copy, PartialEq, Eq, Structural)]
pub struct MqttStatus {
    pub msg_id: u16,
    pub code: StatusCode,
}

/// The status code of a `+QMTPUB` report with the given result: 0 published, 1 retrying
/// (with the number of retries, 0 when not given), 2 timed out.
pub open spec fn qmtpub_code(status: u8, retries: Option<u8>) -> StatusCode {
    if status == 0 {
        StatusCode::Published
    } else if status == 1 {
        StatusCode::Retrying(
            match retries {
                Some(n) => n,
                None => 0,
            },
        )
    } else if status == 2 {
        StatusCode::Timeout
    } else {
        StatusCode::Unknown
    }
}

impl MqttStatus {
    /// The status of a message that failed with an MQTT error.
    pub fn mqtt_error(msg_id: u16) -> (r: MqttStatus)
        ensures
            r.msg_id == msg_id,
            r.code == StatusCode::MqttError,
    {
        MqttStatus { msg_id, code: StatusCode::MqttError }
    }

    /// The status that a `+QMTPUB: <client>,<msg_id>,<status>[,<retries>]` report gives.
    pub fn from_bg77_qmtpub(msg_id: u16, status: u8, retries: Option<&u8>) -> (r: MqttStatus)
        ensures
            r.msg_id == msg_id,
            r.code == qmtpub_code(
                status,
                match retries {
                    Some(n) => Some(*n),
                    None => None,
                },
            ),
    {
        let code = match status {
            0 => StatusCode::Published,
            1 => StatusCode::Retrying(
                match retries {
                    Some(n) => *n,
                    None => 0,
                },
            ),
            2 => StatusCode::Timeout,
            _ => StatusCode::Unknown,
        };
        MqttStatus { msg_id, code }
    }
}

/// Quality of service of an MQTT message.
#[derive(Debug, Clone, Copy, PartialEq, Eq, Structural)]
pub enum MqttQos {
    /// At most once.
    Q0,
    /// At least once.
    Q1,
}

impl MqttQos {
    /// The number of the level in the MQTT protocol.
    pub fn as_u8(self) -> (r: u8)
        ensures
            r == match self {
                MqttQos::Q0 => 0u8,
                MqttQos::Q1 => 1u8,
            },
    {
        match self {
            MqttQos::Q0 => 0,
            MqttQos::Q1 => 1,
        }
    }
}

/// Errors of opening the TCP connection to the broker (`+QMTOPEN`).
#[derive(Debug, Clone, Copy, PartialEq, Eq, Structural)]
pub enum TcpError {
    FailedToOpenNetwork,
    WrongParameter,
    IdentifierOccupied,
    PdpContextFailed,
    DomainNameError,
    NetworkDisconnected,
    /// The broker closed the connection while the modem still had the network.
    ServerDisconnect,
    Unknown(i8),
}

/// The error that a `+QMTOPEN` result code stands for.
pub open spec fn tcp_error_of(code: i8) -> TcpError {
    if code == -1 {
        TcpError::FailedToOpenNetwork
    } else if code == 1 {
        TcpError::WrongParameter
    } else if code == 2 {
        TcpError::IdentifierOccupied
    } else if code == 3 {
        TcpError::PdpContextFailed
    } else if code == 4 {
        TcpError::DomainNameError
    } else if code == 5 {
        TcpError::NetworkDisconnected
    } else {
        TcpError::Unknown(code)
    }
}

impl TcpError {
    /// The error for a `+QMTOPEN` result code.
    pub fn from_code(status: i8) -> (r: TcpError)
        ensures
            r == tcp_error_of(status),
    {
        match status {
            -1 => TcpError::FailedToOpenNetwork,
            1 => TcpError::WrongParameter,
            2 => TcpError::IdentifierOccupied,
            3 => TcpError::PdpContextFailed,
            4 => TcpError::DomainNameError,
            5 => TcpError::NetworkDisconnected,
            code => TcpError::Unknown(code),
        }
    }
}

/// Errors of the MQTT connection handshake (`+QMTCONN`).
#[derive(Debug, Clone, Copy, PartialEq, Eq, Structural)]
pub enum ConnectError {
    RetransmissionTimeout,
    PacketSendFailed,
    UnacceptableProtocolVersion,
    IdentifierRejected,
    ServerUnavailable,
    BadUsernameOrPassword,
    NotAuthorized,
    Unknown(u8),
}

/// The error that a `+QMTCONN: <client>,<result>,<reason>` report stands for: the refusal
/// reason when there is one, else the result.
pub open spec fn connect_error_of(res: u8, reason: u8) -> ConnectError {
    if reason != 0 {
        if reason == 1 {
            ConnectError::UnacceptableProtocolVersion
        } else if reason == 2 {
            ConnectError::IdentifierRejected
        } else if reason == 3 {
            ConnectError::ServerUnavailable
        } else if reason == 4 {
            ConnectError::BadUsernameOrPassword
        } else if reason == 5 {
            ConnectError::NotAuthorized
        } else {
            ConnectError::Unknown(reason)
        }
    } else if res == 1 {
        ConnectError::RetransmissionTimeout
    } else if res == 2 {
        ConnectError::PacketSendFailed
    } else {
        ConnectError::Unknown(res)
    }
}

impl ConnectError {
    /// The error for the result and the reason of a `+QMTCONN` report.
    pub fn from_code(res: u8, reason: u8) -> (r: ConnectError)
        ensures
            r == connect_error_of(res, reason),
    {
        if reason != 0 {
            match reason {
                1 => ConnectError::UnacceptableProtocolVersion,
                2 => ConnectError::IdentifierRejected,
                3 => ConnectError::ServerUnavailable,
                4 => ConnectError::BadUsernameOrPassword,
                5 => ConnectError::NotAuthorized,
                _ => ConnectError::Unknown(reason),
            }
        } else {
            match res {
                1 => ConnectError::RetransmissionTimeout,
                2 => ConnectError::PacketSendFailed,
                code => ConnectError::Unknown(code),
            }
        }
    }
}

/// The state of the MQTT client, as `AT+QMTCONN?` reports it.
#[derive(Debug, Clone, Copy, PartialEq, Eq, Structural)]
pub enum QmtconnStatus {
    Initializing,
    Connecting,
    Connected,
    Disconnecting,
}

/// The state for a `+QMTCONN?` state code (1 to 4).
pub open spec fn qmtconn_status_of(val: u8) -> Option<QmtconnStatus> {
    if val == 1 {
        Some(QmtconnStatus::Initializing)
    } else if val == 2 {
        Some(QmtconnStatus::Connecting)
    } else if val == 3 {
        Some(QmtconnStatus::Connected)
    } else if val == 4 {
        Some(QmtconnStatus::Disconnecting)
    } else {
        None
    }
}

impl QmtconnStatus {
    /// The state for a state code; codes other than 1 to 4 are refused.
    pub fn try_from(val: u8) -> (r: Option<QmtconnStatus>)
        ensures
            r == qmtconn_status_of(val),
    {
        match val {
            1 => Some(QmtconnStatus::Initializing),
            2 => Some(QmtconnStatus::Connecting),
            3 => Some(QmtconnStatus::Connected),
            4 => Some(QmtconnStatus::Disconnecting),
            _ => None,
        }
    }
}

/// When the broker gives a refusal reason, the reason alone decides the connect error.
pub proof fn lemma_connect_error_reason(res1: u8, res2: u8, reason: u8)
    requires
        reason != 0,
    ensures
        connect_error_of(res1, reason) == connect_error_of(res2, reason),
{
}

} // verus!
