//! The state of the cellular and MQTT connection, and the supervisor that decides when and how
//! to reconnect.
//!
//! The supervisor does not talk to the modem itself: each step tells the caller what to do
//! next (register to the network, open the MQTT connection, connect), and the caller hands the
//! outcome of that work to the next step. Times are milliseconds since boot.
use vstd::prelude::*;

use crate::error::Error;
use crate::mqtt::{ConnectError, TcpError};

verus! {

/// After this long without a successful send, the modem is detached and attached again.
pub const MAX_INACTIVE_FORCE_REATTACH_MS: u64 = 210_000;

/// A forced reattach happens at most once in this long.
pub const FORCE_REATTACH_RATE_LIMIT_MS: u64 = 420_000;

/// The state of the cellular and MQTT connection.
#[derive(Debug, Clone, Copy, PartialEq, Eq, Structural)]
pub enum ConnectionState {
    /// Disconnected from both the cellular network and the MQTT broker.
    Disconnected,
    /// Registering to the cellular network (`AT+CGATT`, `AT+CGACT`).
    ConnectingCellular,
    /// Cellular registration failed.
    CellularRegistrationFailed,
    /// Opening the TCP connection and the MQTT session (`+QMTOPEN`, `+QMTCONN`).
    ConnectingMqtt,
    /// Opening the TCP connection failed.
    TcpError(TcpError),
    /// The MQTT handshake failed.
    ConnectError(ConnectError),
    /// Connected to the MQTT broker.
    MqttConnected,
}

impl Default for ConnectionState {
    fn default() -> (r: ConnectionState)
        ensures
            r == ConnectionState::Disconnected,
    {
        ConnectionState::Disconnected
    }
}

/// The state is an MQTT error: a TCP or a connect error.
pub open spec fn is_mqtt_error_state(s: ConnectionState) -> bool {
    s is TcpError || s is ConnectError
}

/// The state has the cellular network.
pub open spec fn is_cellular_state(s: ConnectionState) -> bool {
    !(s is Disconnected || s is ConnectingCellular || s is CellularRegistrationFailed)
}

impl ConnectionState {
    /// Whether connected to MQTT.
    pub fn is_mqtt_connected(&self) -> (r: bool)
        ensures
            r == (*self is MqttConnected),
    {
        matches!(self, ConnectionState::MqttConnected)
    }

    /// Whether the last MQTT attempt failed.
    pub fn is_mqtt_error(&self) -> (r: bool)
        ensures
            r == is_mqtt_error_state(*self),
    {
        matches!(self, ConnectionState::TcpError(_) | ConnectionState::ConnectError(_))
    }

    /// Whether connected to the cellular network.
    pub fn is_cellular_connected(&self) -> (r: bool)
        ensures
            r == is_cellular_state(*self),
    {
        !matches!(
            self,
            ConnectionState::Disconnected | ConnectionState::ConnectingCellular
                | ConnectionState::CellularRegistrationFailed
        )
    }

    /// Whether a connection attempt is under way.
    pub fn is_connecting(&self) -> (r: bool)
        ensures
            r == (*self is ConnectingCellular || *self is ConnectingMqtt),
    {
        matches!(self, ConnectionState::ConnectingCellular | ConnectionState::ConnectingMqtt)
    }

    /// The state after a failed MQTT step: a TCP error or a connect error keeps its kind;
    /// a registration error means the network was lost; any other error counts as a failure
    /// to open the TCP connection.
    pub fn from_error(err: Error) -> (r: ConnectionState)
        ensures
            r == state_of_error(err),
    {
        match err {
            Error::MqttTcp(e) => ConnectionState::TcpError(e),
            Error::MqttConnect(e) => ConnectionState::ConnectError(e),
            Error::Registration(_) => ConnectionState::CellularRegistrationFailed,
            _ => ConnectionState::TcpError(TcpError::FailedToOpenNetwork),
        }
    }
}

/// The state after an MQTT step failed with `err`.
pub open spec fn state_of_error(err: Error) -> ConnectionState {
    match err {
        Error::MqttTcp(e) => ConnectionState::TcpError(e),
        Error::MqttConnect(e) => ConnectionState::ConnectError(e),
        Error::Registration(_) => ConnectionState::CellularRegistrationFailed,
        _ => ConnectionState::TcpError(TcpError::FailedToOpenNetwork),
    }
}

/// An event that changes the connection.
#[derive(Debug, Clone, Copy, PartialEq, Eq, Structural)]
pub enum ConnectionEvent {
    /// The MQTT session was lost (`+QMTSTAT`); the network may still be there.
    MqttDisconnect(TcpError),
    /// The packet data context was deactivated (`+QIURC: "pdpdeact"`).
    PdpDeactivate,
}

/// A command for the task that drives the modem.
#[derive(Debug, Clone, Copy, PartialEq, Eq, Structural)]
pub enum SendPunchCommand {
    /// Take the time of the network from the modem.
    SynchronizeTime,
    /// An event for the connection supervisor.
    ConnectionSupervisorEvent(ConnectionEvent),
}

/// What the caller of the supervisor does next.
#[derive(Debug, Clone, Copy, PartialEq, Eq, Structural)]
pub enum ConnectAction {
    /// Nothing; the connection attempt is over and succeeded, or was not needed.
    Done,
    /// The connection attempt is over and failed with this error.
    Failed(Error),
    /// Register to the cellular network, detaching first when the flag is set.
    RegisterCellular(bool),
    /// Open the TCP connection to the MQTT broker.
    OpenMqtt,
    /// Connect the MQTT session.
    ConnectMqtt,
}

/// Supervises the cellular and MQTT connection: its state, and when to try again.
#[derive(Debug, Clone, Copy, PartialEq, Eq)]
pub struct ConnectionSupervisor {
    /// The current state.
    pub state: ConnectionState,
    /// When the last connection attempt began.
    pub last_connect_attempt: Option<u64>,
    /// When the modem was last forced to reattach.
    pub last_force_reattach: u64,
}

/// The supervisor forces a reattach: nothing was sent for `MAX_INACTIVE_FORCE_REATTACH_MS`,
/// and the last forced reattach is at least `FORCE_REATTACH_RATE_LIMIT_MS` ago.
pub open spec fn force_reattach_due(last_successful_send: u64, last_force_reattach: u64, now: u64) -> bool {
    last_successful_send + MAX_INACTIVE_FORCE_REATTACH_MS < now && last_force_reattach
        + FORCE_REATTACH_RATE_LIMIT_MS <= now
}

impl ConnectionSupervisor {
    /// A supervisor that is disconnected and last forced a reattach at `now`.
    pub fn new(now: u64) -> (r: ConnectionSupervisor)
        ensures
            r.state == ConnectionState::Disconnected,
            r.last_connect_attempt is None,
            r.last_force_reattach == now,
    {
        ConnectionSupervisor {
            state: ConnectionState::Disconnected,
            last_connect_attempt: None,
            last_force_reattach: now,
        }
    }

    /// Whether connected to MQTT.
    pub fn is_connected(&self) -> (r: bool)
        ensures
            r == (self.state is MqttConnected),
    {
        self.state.is_mqtt_connected()
    }

    /// The current state.
    pub fn state(&self) -> (r: ConnectionState)
        ensures
            r == self.state,
    {
        self.state
    }

    /// Sets the state.
    pub fn set_state(&mut self, state: ConnectionState)
        ensures
            *final(self) == (ConnectionSupervisor { state, ..*old(self) }),
    {
        self.state = state;
    }

    /// Records `now` as the beginning of the last connection attempt.
    pub fn set_last_connect_attempt(&mut self, now: u64)
        ensures
            *final(self) == (ConnectionSupervisor { last_connect_attempt: Some(now), ..*old(self) }),
    {
        self.last_connect_attempt = Some(now);
    }

    /// Sets the state, and returns whether it is now connected to MQTT, the flag that the
    /// listeners of the connection status are told.
    pub fn update_status(&mut self, state: ConnectionState) -> (connected: bool)
        ensures
            *final(self) == (ConnectionSupervisor { state, ..*old(self) }),
            connected == (state is MqttConnected),
    {
        let connected = state.is_mqtt_connected();
        self.state = state;
        connected
    }

    /// Handles a connection event.
    ///
    /// A lost MQTT session turns a connected state into its TCP error; a deactivated packet
    /// data context means the registration is lost. Returns the new connection flag when the
    /// state was updated.
    pub fn handle_event(&mut self, event: ConnectionEvent) -> (r: Option<bool>)
        ensures
            match event {
                ConnectionEvent::MqttDisconnect(err) => if old(self).state is MqttConnected {
                    *final(self) == (ConnectionSupervisor {
                        state: ConnectionState::TcpError(err),
                        ..*old(self)
                    }) && r == Some(false)
                } else {
                    *final(self) == *old(self) && r is None
                },
                ConnectionEvent::PdpDeactivate => *final(self) == (ConnectionSupervisor {
                    state: ConnectionState::CellularRegistrationFailed,
                    ..*old(self)
                }) && r == Some(false),
            },
    {
        match event {
            ConnectionEvent::MqttDisconnect(err) => {
                if self.state == ConnectionState::MqttConnected {
                    Some(self.update_status(ConnectionState::TcpError(err)))
                } else {
                    None
                }
            },
            ConnectionEvent::PdpDeactivate => {
                Some(self.update_status(ConnectionState::CellularRegistrationFailed))
            },
        }
    }

    /// Begins a connection attempt at `now`.
    ///
    /// Nothing is done when connected, or when the last attempt began less than twice the
    /// packet timeout ago. Otherwise the attempt is recorded, and the network registration
    /// comes first unless the last attempt failed at the MQTT step and no reattach is due;
    /// then the MQTT connection is opened.
    pub fn begin_connect(&mut self, now: u64, last_successful_send: u64, packet_timeout: u64) -> (a: ConnectAction)
        requires
            2 * packet_timeout <= u64::MAX,
            old(self).last_connect_attempt matches Some(t) ==> t + 2 * packet_timeout <= u64::MAX,
            last_successful_send + MAX_INACTIVE_FORCE_REATTACH_MS <= u64::MAX,
            old(self).last_force_reattach + FORCE_REATTACH_RATE_LIMIT_MS <= u64::MAX,
        ensures
            ({
                let o = *old(self);
                let f = *final(self);
                let force = force_reattach_due(last_successful_send, o.last_force_reattach, now);
                if o.state is MqttConnected || (o.last_connect_attempt matches Some(t) && t + 2
                    * packet_timeout > now) {
                    a == ConnectAction::Done && f == o
                } else if !is_mqtt_error_state(o.state) || force {
                    &&& a == ConnectAction::RegisterCellular(force)
                    &&& f.state == ConnectionState::ConnectingCellular
                    &&& f.last_connect_attempt == Some(now)
                    &&& f.last_force_reattach == if force {
                        now
                    } else {
                        o.last_force_reattach
                    }
                } else {
                    &&& a == ConnectAction::OpenMqtt
                    &&& f.state == ConnectionState::ConnectingMqtt
                    &&& f.last_connect_attempt == Some(now)
                    &&& f.last_force_reattach == o.last_force_reattach
                }
            }),
    {
        if self.state == ConnectionState::MqttConnected {
            return ConnectAction::Done;
        }
        match self.last_connect_attempt {
            Some(t) => {
                if t + 2 * packet_timeout > now {
                    return ConnectAction::Done;
                }
            },
            None => {},
        }
        self.last_connect_attempt = Some(now);
        let force_reattach = last_successful_send + MAX_INACTIVE_FORCE_REATTACH_MS < now
            && self.last_force_reattach + FORCE_REATTACH_RATE_LIMIT_MS <= now;
        if !self.state.is_mqtt_error() || force_reattach {
            if force_reattach {
                self.last_force_reattach = now;
            }
            self.update_status(ConnectionState::ConnectingCellular);
            ConnectAction::RegisterCellular(force_reattach)
        } else {
            self.update_status(ConnectionState::ConnectingMqtt);
            ConnectAction::OpenMqtt
        }
    }

    /// Takes the outcome of the network registration.
    pub fn registration_done(&mut self, outcome: Result<(), Error>) -> (a: ConnectAction)
        ensures
            final(self).last_connect_attempt == old(self).last_connect_attempt,
            final(self).last_force_reattach == old(self).last_force_reattach,
            match outcome {
                Ok(()) => a == ConnectAction::OpenMqtt && final(self).state
                    == ConnectionState::ConnectingMqtt,
                Err(e) => a == ConnectAction::Failed(e) && final(self).state
                    == ConnectionState::CellularRegistrationFailed,
            },
    {
        match outcome {
            Ok(()) => {
                self.update_status(ConnectionState::ConnectingMqtt);
                ConnectAction::OpenMqtt
            },
            Err(e) => {
                self.update_status(ConnectionState::CellularRegistrationFailed);
                ConnectAction::Failed(e)
            },
        }
    }

    /// Takes the outcome of opening the TCP connection to the broker.
    pub fn open_done(&mut self, outcome: Result<(), Error>) -> (a: ConnectAction)
        ensures
            final(self).last_connect_attempt == old(self).last_connect_attempt,
            final(self).last_force_reattach == old(self).last_force_reattach,
            match outcome {
                Ok(()) => a == ConnectAction::ConnectMqtt && final(self).state == old(self).state,
                Err(e) => a == ConnectAction::Failed(e) && final(self).state == state_of_error(e),
            },
    {
        match outcome {
            Ok(()) => ConnectAction::ConnectMqtt,
            Err(e) => {
                self.update_status(ConnectionState::from_error(e));
                ConnectAction::Failed(e)
            },
        }
    }

    /// Takes the outcome of the MQTT handshake.
    pub fn connect_done(&mut self, outcome: Result<(), Error>) -> (a: ConnectAction)
        ensures
            final(self).last_connect_attempt == old(self).last_connect_attempt,
            final(self).last_force_reattach == old(self).last_force_reattach,
            match outcome {
                Ok(()) => a == ConnectAction::Done && final(self).state
                    == ConnectionState::MqttConnected,
                Err(e) => a == ConnectAction::Failed(e) && final(self).state == state_of_error(e),
            },
    {
        match outcome {
            Ok(()) => {
                self.update_status(ConnectionState::MqttConnected);
                ConnectAction::Done
            },
            Err(e) => {
                self.update_status(ConnectionState::from_error(e));
                ConnectAction::Failed(e)
            },
        }
    }

    /// Takes whether the modem is registered to the network and has an active packet data
    /// context; returns whether the MQTT connection is to be checked next.
    pub fn check_registration(&mut self, registered: bool) -> (check_mqtt: bool)
        ensures
            check_mqtt == registered,
            registered ==> *final(self) == *old(self),
            !registered ==> *final(self) == (ConnectionSupervisor {
                state: ConnectionState::CellularRegistrationFailed,
                ..*old(self)
            }),
    {
        if !registered {
            self.update_status(ConnectionState::CellularRegistrationFailed);
        }
        registered
    }

    /// Takes whether the MQTT client is connected, after a successful registration check.
    ///
    /// A lost MQTT session becomes a server disconnect, unless an MQTT error is already known.
    pub fn check_mqtt(&mut self, connected: bool)
        ensures
            connected ==> *final(self) == (ConnectionSupervisor {
                state: ConnectionState::MqttConnected,
                ..*old(self)
            }),
            !connected && is_mqtt_error_state(old(self).state) ==> *final(self) == *old(self),
            !connected && !is_mqtt_error_state(old(self).state) ==> *final(self) == (
            ConnectionSupervisor {
                state: ConnectionState::TcpError(TcpError::ServerDisconnect),
                ..*old(self)
            }),
    {
        if !connected {
            if !self.state.is_mqtt_error() {
                self.update_status(ConnectionState::TcpError(TcpError::ServerDisconnect));
            }
        } else {
            self.update_status(ConnectionState::MqttConnected);
        }
    }
}

/// An unforced MQTT reconnection happens at most once in this long.
pub const RECONNECT_RATE_LIMIT_MS: u64 = 60_000;

/// Whether a request to reconnect to MQTT, at `now`, is acted on: a forced one always, any
/// other when there was no reconnection yet or the last one, at `last_reconnect`, was at least
/// a minute before.
pub fn reconnect_due(force: bool, last_reconnect: Option<u64>, now: u64) -> (r: bool)
    requires
        last_reconnect matches Some(t) ==> t + RECONNECT_RATE_LIMIT_MS <= u64::MAX,
    ensures
        r == (force || last_reconnect is None || last_reconnect->0 + RECONNECT_RATE_LIMIT_MS
            <= now),
{
    if force {
        return true;
    }
    match last_reconnect {
        None => true,
        Some(t) => t + RECONNECT_RATE_LIMIT_MS <= now,
    }
}

} // verus!
