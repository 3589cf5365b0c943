//! The MQTT client of the BG77 modem: its configuration, the AT commands it sends, and the
//! procedures that open, connect, close and publish, as steps that take the modem's answers.
//!
//! Durations and instants are milliseconds.
use vstd::prelude::*;
use vstd::string::*;
use vstd::utf8::encode_utf8;

use crate::at::{AtError, AtResponse, AtString, AtValue, CommandResponse};
use crate::connection::ConnectionEvent;
use crate::error::Error;
use crate::modem::{is_call, Action, ModemAction, ACTIVATION_TIMEOUT_MS};
use crate::mqtt::{
    connect_error_of, qmtconn_status_of, qmtpub_code, tcp_error_of, ConnectError, MqttQos,
    MqttStatus, QmtconnStatus, StatusCode, TcpError,
};
use crate::text::{digits_of, parse_signed, parse_unsigned, push_digits, str_eq, utf8_len};

verus! {

/// Extra time to wait for the answer to `+QMTCONN`.
pub const MQTT_EXTRA_TIMEOUT_MS: u64 = 300;

/// The configuration of the MQTT client.
#[derive(Debug, Clone, PartialEq, Eq)]
pub struct MqttClientConfig {
    /// The broker, e.g. `broker.emqx.io`; at most 50 bytes.
    pub url: String,
    /// User name (at most 20 bytes) and password (at most 30 bytes).
    pub credentials: Option<(String, String)>,
    /// The timeout of one MQTT packet.
    pub packet_timeout: u64,
    /// The name of the client; at most 24 bytes.
    pub name: String,
    /// The MAC address that the topics begin with; at most 12 bytes.
    pub mac_address: String,
    /// The port of the broker.
    pub port: u16,
}

/// The part of the MQTT configuration that is stored and set from outside.
#[derive(Debug, Clone, PartialEq, Eq)]
pub struct MqttConfig {
    /// The broker; at most 50 bytes.
    pub url: String,
    /// User name (at most 20 bytes) and password (at most 30 bytes).
    pub credentials: Option<(String, String)>,
    /// The timeout of one MQTT packet.
    pub packet_timeout: u64,
    /// The port of the broker.
    pub port: u16,
}

/// The credentials fit their buffers.
pub open spec fn credentials_fit(c: Option<(String, String)>) -> bool {
    c matches Some((u, p)) ==> encode_utf8(u@).len() <= 20 && encode_utf8(p@).len() <= 30
}

impl MqttClientConfig {
    /// The fields fit their buffers, and twice the packet timeout is a duration.
    pub open spec fn wf(&self) -> bool {
        &&& encode_utf8(self.url@).len() <= 50
        &&& credentials_fit(self.credentials)
        &&& encode_utf8(self.name@).len() <= 24
        &&& encode_utf8(self.mac_address@).len() <= 12
        &&& 2 * self.packet_timeout + MQTT_EXTRA_TIMEOUT_MS <= u64::MAX
    }

    /// Takes the stored part of the configuration; the name and the MAC address stay.
    pub fn update(&mut self, reduced: MqttConfig)
        ensures
            final(self).url == reduced.url,
            final(self).credentials == reduced.credentials,
            final(self).packet_timeout == reduced.packet_timeout,
            final(self).port == reduced.port,
            final(self).name == old(self).name,
            final(self).mac_address == old(self).mac_address,
    {
        self.url = reduced.url;
        self.credentials = reduced.credentials;
        self.packet_timeout = reduced.packet_timeout;
        self.port = reduced.port;
    }
}

impl Default for MqttClientConfig {
    fn default() -> (r: MqttClientConfig)
        ensures
            r.url@ == "broker.emqx.io"@,
            r.credentials is None,
            r.packet_timeout == 35_000,
            r.name@ == "test_client"@,
            r.mac_address@ == "deadbeef"@,
            r.port == 1883,
    {
        MqttClientConfig {
            url: String::from_str("broker.emqx.io"),
            credentials: None,
            packet_timeout: 35_000,
            name: String::from_str("test_client"),
            mac_address: String::from_str("deadbeef"),
            port: 1883,
        }
    }
}

impl Default for MqttConfig {
    fn default() -> (r: MqttConfig)
        ensures
            r.url@ == "broker.emqx.io"@,
            r.credentials is None,
            r.packet_timeout == 35_000,
            r.port == 1883,
    {
        MqttConfig {
            url: String::from_str("broker.emqx.io"),
            credentials: None,
            packet_timeout: 35_000,
            port: 1883,
        }
    }
}

/// `+QMTCFG="timeout",<cid>,<secs>,2,1`: packet timeout in seconds, 2 retries, report timeouts.
pub open spec fn timeout_command(cid: u8, timeout: u64) -> Seq<char> {
    "+QMTCFG=\"timeout\","@ + digits_of(cid as nat, 10) + ","@ + digits_of((timeout / 1000) as nat, 10)
        + ",2,1"@
}

/// `+QMTCFG="keepalive",<cid>,<secs>`: keep-alive of twice the packet timeout, in seconds.
pub open spec fn keepalive_command(cid: u8, timeout: u64) -> Seq<char> {
    "+QMTCFG=\"keepalive\","@ + digits_of(cid as nat, 10) + ","@ + digits_of(
        ((2 * timeout) / 1000) as nat,
        10,
    )
}

/// `+QMTCFG="will",<cid>,1,1,0,"yar/<mac>/will","<name>"`: the last will of the client.
pub open spec fn will_command(cid: u8, mac: Seq<char>, name: Seq<char>) -> Seq<char> {
    "+QMTCFG=\"will\","@ + digits_of(cid as nat, 10) + ",1,1,0,\"yar/"@ + mac + "/will\",\""@ + name
        + "\""@
}

/// `+QMTOPEN=<cid>,"<url>",<port>`.
pub open spec fn open_command(cid: u8, url: Seq<char>, port: u16) -> Seq<char> {
    "+QMTOPEN="@ + digits_of(cid as nat, 10) + ",\""@ + url + "\","@ + digits_of(port as nat, 10)
}

/// `+QMTCONN=<cid>,"<name>"`, with `,"<user>","<password>"` when there are credentials.
pub open spec fn conn_command(cid: u8, name: Seq<char>, credentials: Option<(String, String)>) -> Seq<
    char,
> {
    let head = "+QMTCONN="@ + digits_of(cid as nat, 10) + ",\""@ + name + "\""@;
    match credentials {
        Some((u, p)) => head + ",\""@ + u@ + "\",\""@ + p@ + "\""@,
        None => head,
    }
}

/// `+QMTCLOSE=<cid>`.
pub open spec fn close_command(cid: u8) -> Seq<char> {
    "+QMTCLOSE="@ + digits_of(cid as nat, 10)
}

/// `+QMTPUB=<cid>,<msg_id>,<qos>,0,"yar/<mac>/<topic>",<len>`.
pub open spec fn pub_command(cid: u8, msg_id: u16, qos: u8, mac: Seq<char>, topic: Seq<char>, len: nat) -> Seq<char> {
    "+QMTPUB="@ + digits_of(cid as nat, 10) + ","@ + digits_of(msg_id as nat, 10) + ","@
        + digits_of(qos as nat, 10) + ",0,\"yar/"@ + mac + "/"@ + topic + "\","@ + digits_of(len, 10)
}

fn append_number(s: &mut String, n: u64)
    ensures
        final(s)@ == old(s)@ + digits_of(n as nat, 10),
{
    push_digits(s, n as u128, 10);
}

fn make_timeout_command(cid: u8, timeout: u64) -> (r: String)
    ensures
        r@ == timeout_command(cid, timeout),
{
    let mut s = String::from_str("+QMTCFG=\"timeout\",");
    append_number(&mut s, cid as u64);
    s.append(",");
    append_number(&mut s, timeout / 1000);
    s.append(",2,1");
    s
}

fn make_keepalive_command(cid: u8, timeout: u64) -> (r: String)
    requires
        2 * timeout <= u64::MAX,
    ensures
        r@ == keepalive_command(cid, timeout),
{
    let mut s = String::from_str("+QMTCFG=\"keepalive\",");
    append_number(&mut s, cid as u64);
    s.append(",");
    append_number(&mut s, (2 * timeout) / 1000);
    s
}

fn make_will_command(cid: u8, mac: &str, name: &str) -> (r: String)
    ensures
        r@ == will_command(cid, mac@, name@),
{
    let mut s = String::from_str("+QMTCFG=\"will\",");
    append_number(&mut s, cid as u64);
    s.append(",1,1,0,\"yar/");
    s.append(mac);
    s.append("/will\",\"");
    s.append(name);
    s.append("\"");
    s
}

fn make_open_command(cid: u8, url: &str, port: u16) -> (r: String)
    ensures
        r@ == open_command(cid, url@, port),
{
    let mut s = String::from_str("+QMTOPEN=");
    append_number(&mut s, cid as u64);
    s.append(",\"");
    s.append(url);
    s.append("\",");
    append_number(&mut s, port as u64);
    s
}

fn make_conn_command(cid: u8, name: &str, credentials: &Option<(String, String)>) -> (r: String)
    ensures
        r@ == conn_command(cid, name@, *credentials),
{
    let mut s = String::from_str("+QMTCONN=");
    append_number(&mut s, cid as u64);
    s.append(",\"");
    s.append(name);
    s.append("\"");
    match credentials {
        Some((u, p)) => {
            s.append(",\"");
            s.append(u.as_str());
            s.append("\",\"");
            s.append(p.as_str());
            s.append("\"");
        },
        None => {},
    }
    s
}

fn make_close_command(cid: u8) -> (r: String)
    ensures
        r@ == close_command(cid),
{
    let mut s = String::from_str("+QMTCLOSE=");
    append_number(&mut s, cid as u64);
    s
}

fn make_pub_command(cid: u8, msg_id: u16, qos: u8, mac: &str, topic: &str, len: usize) -> (r: String)
    ensures
        r@ == pub_command(cid, msg_id, qos, mac@, topic@, len as nat),
{
    let mut s = String::from_str("+QMTPUB=");
    append_number(&mut s, cid as u64);
    s.append(",");
    append_number(&mut s, msg_id as u64);
    s.append(",");
    append_number(&mut s, qos as u64);
    s.append(",0,\"yar/");
    s.append(mac);
    s.append("/");
    s.append(topic);
    s.append("\",");
    append_number(&mut s, len as u64);
    s
}

/// The MQTT client of the modem.
#[derive(Debug, Clone, PartialEq, Eq)]
pub struct MqttClient {
    pub config: MqttClientConfig,
    /// When a message was last published.
    pub last_successful_send: u64,
    /// The client index of the modem (0 to 5).
    pub client_id: u8,
}

/// The filter on the client index, at index 0.
pub open spec fn client_filter(cid: u8) -> Option<(u8, usize)> {
    Some((cid, 0usize))
}

/// The `u8` that `s` parses into.
pub open spec fn u8_of(s: Seq<char>) -> Option<nat> {
    parse_unsigned(s, 10, 0xff)
}

/// The values at the indices `0, 1` of the answer for client `cid`, both `u8`: the error met,
/// or the second value.
pub open spec fn client_pair(resp: AtResponse, cid: u8) -> Result<nat, AtError> {
    match resp.picked(client_filter(cid), seq![0usize, 1usize]) {
        Err(e) => Err(e),
        Ok(w) => if u8_of(w[0]) is Some && u8_of(w[1]) is Some {
            Ok(u8_of(w[1])->0)
        } else {
            Err(AtError::ParseError)
        },
    }
}

/// What `+QMTCONN?` tells of client `cid`: whether it is connected, or the error met.
pub open spec fn connected_spec(resp: AtResponse, cid: u8) -> Result<bool, Error> {
    match client_pair(resp, cid) {
        Err(e) => Err(Error::At(e)),
        Ok(s) => match qmtconn_status_of(s as u8) {
            None => Err(Error::At(AtError::ModemError)),
            Some(st) => Ok(st == QmtconnStatus::Connected),
        },
    }
}

/// A client is connected exactly when its `+QMTCONN?` state code is 3: for a response about
/// client `cid` whose first two values are `u8`s, the state code `n` (value 1) gives
/// connected for 3, not connected for 1 (initializing), 2 (connecting) and 4 (disconnecting),
/// and `ModemError` for any other code.
pub proof fn lemma_connected_only_in_state_3(resp: AtResponse, cid: u8, w: Seq<Seq<char>>, n: nat)
    requires
        resp.picked(client_filter(cid), seq![0usize, 1usize]) == Ok::<Seq<Seq<char>>, AtError>(w),
        parse_unsigned(w[0], 10, 0xff) is Some,
        parse_unsigned(w[1], 10, 0xff) == Some(n),
    ensures
        1 <= n <= 4 ==> connected_spec(resp, cid) == Ok::<bool, Error>(n == 3),
        !(1 <= n <= 4) ==> connected_spec(resp, cid) == Err::<bool, Error>(
            Error::At(AtError::ModemError),
        ),
{
    assert(n <= 0xff);
    assert(n as u8 == n);
}

impl MqttClient {
    /// A client with the given configuration and index, whose last send is `now`.
    pub fn new(config: MqttClientConfig, client_id: u8, now: u64) -> (r: MqttClient)
        ensures
            r == (MqttClient { config, last_successful_send: now, client_id }),
    {
        MqttClient { config, last_successful_send: now, client_id }
    }

    /// Replaces the configuration.
    pub fn update_config(&mut self, config: MqttClientConfig)
        ensures
            *final(self) == (MqttClient { config, ..*old(self) }),
    {
        self.config = config;
    }

    /// Takes the stored part of a configuration.
    pub fn update_reduced_config(&mut self, reduced: MqttConfig)
        ensures
            final(self).config.url == reduced.url,
            final(self).config.credentials == reduced.credentials,
            final(self).config.packet_timeout == reduced.packet_timeout,
            final(self).config.port == reduced.port,
            final(self).config.name == old(self).config.name,
            final(self).config.mac_address == old(self).config.mac_address,
            final(self).last_successful_send == old(self).last_successful_send,
            final(self).client_id == old(self).client_id,
    {
        self.config.update(reduced);
    }

    /// The timeout of one MQTT packet.
    pub fn packet_timeout(&self) -> (r: u64)
        ensures
            r == self.config.packet_timeout,
    {
        self.config.packet_timeout
    }

    /// The time of the last publication, after taking a publication reported since.
    pub fn last_successful_send(&mut self, published: Option<u64>) -> (r: u64)
        ensures
            r == final(self).last_successful_send,
            final(self).config == old(self).config,
            final(self).client_id == old(self).client_id,
            final(self).last_successful_send == match published {
                Some(t) => if t > old(self).last_successful_send {
                    t
                } else {
                    old(self).last_successful_send
                },
                None => old(self).last_successful_send,
            },
    {
        match published {
            Some(t) => {
                if t > self.last_successful_send {
                    self.last_successful_send = t;
                }
            },
            None => {},
        }
        self.last_successful_send
    }

    /// Whether the answer to `+QMTCONN?` can be read without failing on the way.
    pub open spec fn conn_reply_ok(&self, resp: AtResponse) -> bool {
        resp.pick_ok(client_filter(self.client_id), seq![0usize, 1usize])
    }

    /// Whether the answer to `+QMTCONN?` can be read.
    pub fn conn_reply_is_safe(&self, resp: &AtResponse) -> (r: bool)
        ensures
            r == self.conn_reply_ok(*resp),
    {
        let idx: [usize; 2] = [0, 1];
        assert(idx@ =~= seq![0usize, 1usize]);
        resp.pick_is_safe::<u8>(&Some((self.client_id, 0usize)), idx.as_slice())
    }

    /// Whether the client is connected, from the answer to `+QMTCONN?`.
    pub fn is_connected(&self, reply: Result<AtResponse, AtError>) -> (r: Result<bool, Error>)
        requires
            reply matches Ok(resp) ==> self.conn_reply_ok(resp),
        ensures
            match reply {
                Err(e) => r == Err::<bool, Error>(Error::At(e)),
                Ok(resp) => r == connected_spec(resp, self.client_id),
            },
    {
        match reply {
            Err(e) => Err(Error::At(e)),
            Ok(resp) => {
                let idx: [usize; 2] = [0, 1];
                assert(idx@ =~= seq![0usize, 1usize]);
                match resp.parse2::<u8, u8>(idx, Some(self.client_id)) {
                    Err(e) => Err(Error::At(e)),
                    Ok((_, status)) => match QmtconnStatus::try_from(status) {
                        None => Err(Error::At(AtError::ModemError)),
                        Some(st) => Ok(st == QmtconnStatus::Connected),
                    },
                }
            },
        }
    }
}

/// Where opening the connection to the broker stands.
#[derive(Debug, Clone, Copy, PartialEq, Eq, Structural)]
pub enum OpenState {
    Start,
    /// `+QMTOPEN?` was sent.
    Query,
    /// `+QMTCONN?` was sent, to close a connection to another broker.
    CloseQuery,
    /// `+QMTCLOSE` was sent.
    Closing,
    /// The packet timeout was configured.
    CfgTimeout,
    /// The keep-alive was configured.
    CfgKeepalive,
    /// The last will was configured.
    CfgWill,
    /// `+QMTOPEN=` was sent.
    Opening,
    Done,
}

/// The answer to `+QMTOPEN?` for client `cid` names this broker and port.
pub open spec fn opened_to(resp: AtResponse, cid: u8, url: Seq<char>, port: u16) -> bool {
    resp.picked(client_filter(cid), seq![0usize, 1usize, 2usize]) matches Ok(w) && u8_of(w[0])
        == Some(cid as nat) && encode_utf8(w[1]).len() <= 40 && parse_unsigned(w[2], 10, 0xffff)
        is Some && w[1] == url && parse_unsigned(w[2], 10, 0xffff) == Some(port as nat)
}

/// The answer to `+QMTOPEN?` reports a connection of client `cid`.
pub open spec fn opened(resp: AtResponse, cid: u8) -> bool {
    resp.picked(client_filter(cid), seq![0usize, 1usize, 2usize]) matches Ok(w) && u8_of(w[0])
        == Some(cid as nat) && encode_utf8(w[1]).len() <= 40 && parse_unsigned(w[2], 10, 0xffff)
        is Some
}

/// The answer to `+QMTCONN?` reports client `cid` connected.
pub open spec fn conn_connected(resp: AtResponse, cid: u8) -> bool {
    client_pair(resp, cid) matches Ok(s) && s == 3
}

/// The result of the answer to `+QMTOPEN=` for client `cid`: the error met, or success.
pub open spec fn open_result(resp: AtResponse, cid: u8) -> Result<(), Error> {
    match resp.picked(client_filter(cid), seq![0usize, 1usize]) {
        Err(e) => Err(Error::At(e)),
        Ok(w) => if !(u8_of(w[0]) is Some && parse_signed(w[1], 0x7f) is Some) {
            Err(Error::At(AtError::ParseError))
        } else if parse_signed(w[1], 0x7f) == Some(0int) {
            Ok(())
        } else {
            Err(Error::MqttTcp(tcp_error_of(parse_signed(w[1], 0x7f)->0 as i8)))
        },
    }
}

/// The next state and action of an opening procedure in `state` that gets `reply`.
pub open spec fn open_transition(state: OpenState, client: MqttClient, reply: Result<AtResponse, AtError>) -> (
    OpenState,
    Action,
) {
    let cid = client.client_id;
    let cfg = client.config;
    let to_timeout = (
        OpenState::CfgTimeout,
        Action::Call(timeout_command(cid, cfg.packet_timeout), None),
    );
    match reply {
        Err(e) => (OpenState::Done, Action::Finish(Err(Error::At(e)))),
        Ok(resp) => match state {
            OpenState::Query => if opened_to(resp, cid, cfg.url@, cfg.port) {
                (OpenState::Done, Action::Finish(Ok(())))
            } else if opened(resp, cid) {
                (OpenState::CloseQuery, Action::Call("+QMTCONN?"@, None))
            } else {
                to_timeout
            },
            OpenState::CloseQuery => if conn_connected(resp, cid) {
                (OpenState::Closing, Action::Call(close_command(cid), Some(ACTIVATION_TIMEOUT_MS)))
            } else {
                to_timeout
            },
            OpenState::Closing => to_timeout,
            OpenState::CfgTimeout => (
                OpenState::CfgKeepalive,
                Action::Call(keepalive_command(cid, cfg.packet_timeout), None),
            ),
            OpenState::CfgKeepalive => (
                OpenState::CfgWill,
                Action::Call(will_command(cid, cfg.mac_address@, cfg.name@), None),
            ),
            OpenState::CfgWill => (
                OpenState::Opening,
                Action::Call(open_command(cid, cfg.url@, cfg.port), Some(ACTIVATION_TIMEOUT_MS)),
            ),
            OpenState::Opening => (OpenState::Done, Action::Finish(open_result(resp, cid))),
            _ => (OpenState::Done, Action::Finish(Ok(()))),
        },
    }
}

/// The next state, action and "connected now" flag of a connecting procedure in `state` that
/// gets `reply`.
pub open spec fn connect_transition(state: ConnectState, client: MqttClient, reply: Result<AtResponse, AtError>) -> (
    ConnectState,
    Action,
    bool,
) {
    let cid = client.client_id;
    let cfg = client.config;
    match state {
        ConnectState::Opening(o) => {
            let (s2, a) = open_transition(o.state, client, reply);
            match a {
                Action::Finish(Ok(())) => (ConnectState::Query, Action::Call("+QMTCONN?"@, None), false),
                Action::Finish(Err(e)) => (ConnectState::Done, Action::Finish(Err(e)), false),
                _ => (ConnectState::Opening(OpenProcedure { state: s2 }), a, false),
            }
        },
        ConnectState::Query => match reply {
            Err(e) => (ConnectState::Done, Action::Finish(Err(Error::At(e))), false),
            Ok(resp) => match client_pair(resp, cid) {
                Err(e) => (ConnectState::Done, Action::Finish(Err(Error::At(e))), false),
                Ok(s) => match qmtconn_status_of(s as u8) {
                    None => (ConnectState::Done, Action::Finish(Err(Error::At(AtError::ModemError))), false),
                    Some(QmtconnStatus::Initializing) => (
                        ConnectState::Connecting,
                        Action::Call(
                            conn_command(cid, cfg.name@, cfg.credentials),
                            Some((cfg.packet_timeout + MQTT_EXTRA_TIMEOUT_MS) as u64),
                        ),
                        false,
                    ),
                    Some(_) => (ConnectState::Done, Action::Finish(Ok(())), false),
                },
            },
        },
        ConnectState::Connecting => match reply {
            Err(e) => (ConnectState::Done, Action::Finish(Err(Error::At(e))), false),
            Ok(resp) => (ConnectState::Done, Action::Finish(conn_result(resp, cid)), conn_result(resp, cid) is Ok),
        },
        ConnectState::Done => (ConnectState::Done, Action::Finish(Ok(())), false),
    }
}

/// Opening the TCP connection of a client to its broker: nothing when it is already open to
/// the right broker; else closing a connection to another broker first, then configuring the
/// packet timeout, the keep-alive and the last will, and opening.
#[derive(Debug, Clone, Copy, PartialEq, Eq, Structural)]
pub struct OpenProcedure {
    pub state: OpenState,
}

impl OpenProcedure {
    /// A procedure that has not begun.
    pub fn new() -> (r: OpenProcedure)
        ensures
            r.state == OpenState::Start,
    {
        OpenProcedure { state: OpenState::Start }
    }

    /// The answer handed to `step` can be read without failing on the way.
    pub open spec fn reply_ok(self, client: MqttClient, reply: Result<AtResponse, AtError>) -> bool {
        match reply {
            Err(_) => true,
            Ok(resp) => match self.state {
                OpenState::Query => resp.pick_ok(client_filter(client.client_id), seq![0usize, 1usize, 2usize]),
                OpenState::CloseQuery | OpenState::Opening => resp.pick_ok(
                    client_filter(client.client_id),
                    seq![0usize, 1usize],
                ),
                _ => true,
            },
        }
    }

    /// Whether `step` can take `reply`.
    pub fn reply_is_safe(&self, client: &MqttClient, reply: &Result<AtResponse, AtError>) -> (r: bool)
        ensures
            r == self.reply_ok(*client, *reply),
    {
        match reply {
            Err(_) => true,
            Ok(resp) => match self.state {
                OpenState::Query => {
                    let idx: [usize; 3] = [0, 1, 2];
                    assert(idx@ =~= seq![0usize, 1usize, 2usize]);
                    resp.pick_is_safe::<u8>(&Some((client.client_id, 0usize)), idx.as_slice())
                },
                OpenState::CloseQuery | OpenState::Opening => {
                    let idx: [usize; 2] = [0, 1];
                    assert(idx@ =~= seq![0usize, 1usize]);
                    resp.pick_is_safe::<u8>(&Some((client.client_id, 0usize)), idx.as_slice())
                },
                _ => true,
            },
        }
    }

    /// Begins: ask which connection is open.
    pub fn start(&mut self) -> (a: ModemAction)
        requires
            old(self).state is Start,
        ensures
            is_call(a, "+QMTOPEN?"@, None),
            final(self).state == OpenState::Query,
    {
        self.state = OpenState::Query;
        ModemAction::Call(String::from_str("+QMTOPEN?"), None)
    }

    fn configure_timeout(&mut self, client: &MqttClient) -> (a: ModemAction)
        ensures
            is_call(a, timeout_command(client.client_id, client.config.packet_timeout), None),
            final(self).state == OpenState::CfgTimeout,
    {
        self.state = OpenState::CfgTimeout;
        ModemAction::Call(make_timeout_command(client.client_id, client.config.packet_timeout), None)
    }

    /// Takes the answer to the last command and decides what comes next.
    pub fn step(&mut self, client: &MqttClient, reply: Result<AtResponse, AtError>) -> (a: ModemAction)
        requires
            !(old(self).state is Start || old(self).state is Done),
            old(self).reply_ok(*client, reply),
            client.config.wf(),
        ensures
            (final(self).state, a@) == open_transition(old(self).state, *client, reply),
    {
        let cid = client.client_id;
        let resp = match reply {
            Err(e) => {
                self.state = OpenState::Done;
                return ModemAction::Finish(Err(Error::At(e)));
            },
            Ok(resp) => resp,
        };
        match self.state {
            OpenState::Query => {
                let idx: [usize; 3] = [0, 1, 2];
                assert(idx@ =~= seq![0usize, 1usize, 2usize]);
                match resp.parse3::<u8, AtString<40>, u16>(idx, cid) {
                    Ok((client_id, url, port)) => {
                        if client_id == cid {
                            if str_eq(url.as_str(), client.config.url.as_str()) && port
                                == client.config.port {
                                self.state = OpenState::Done;
                                return ModemAction::Finish(Ok(()));
                            }
                            self.state = OpenState::CloseQuery;
                            return ModemAction::Call(String::from_str("+QMTCONN?"), None);
                        }
                        self.configure_timeout(client)
                    },
                    Err(_) => self.configure_timeout(client),
                }
            },
            OpenState::CloseQuery => {
                let idx: [usize; 2] = [0, 1];
                assert(idx@ =~= seq![0usize, 1usize]);
                match resp.parse2::<u8, u8>(idx, Some(cid)) {
                    Ok((_, status)) => {
                        if QmtconnStatus::try_from(status) == Some(QmtconnStatus::Connected) {
                            self.state = OpenState::Closing;
                            return ModemAction::Call(make_close_command(cid), Some(ACTIVATION_TIMEOUT_MS));
                        }
                        self.configure_timeout(client)
                    },
                    Err(_) => self.configure_timeout(client),
                }
            },
            OpenState::Closing => self.configure_timeout(client),
            OpenState::CfgTimeout => {
                self.state = OpenState::CfgKeepalive;
                ModemAction::Call(make_keepalive_command(cid, client.config.packet_timeout), None)
            },
            OpenState::CfgKeepalive => {
                self.state = OpenState::CfgWill;
                ModemAction::Call(
                    make_will_command(cid, client.config.mac_address.as_str(), client.config.name.as_str()),
                    None,
                )
            },
            OpenState::CfgWill => {
                self.state = OpenState::Opening;
                ModemAction::Call(
                    make_open_command(cid, client.config.url.as_str(), client.config.port),
                    Some(ACTIVATION_TIMEOUT_MS),
                )
            },
            OpenState::Opening => {
                self.state = OpenState::Done;
                let idx: [usize; 2] = [0, 1];
                assert(idx@ =~= seq![0usize, 1usize]);
                match resp.parse2::<u8, i8>(idx, Some(cid)) {
                    Err(e) => ModemAction::Finish(Err(Error::At(e))),
                    Ok((_, status)) => {
                        if status != 0 {
                            ModemAction::Finish(Err(Error::MqttTcp(TcpError::from_code(status))))
                        } else {
                            ModemAction::Finish(Ok(()))
                        }
                    },
                }
            },
            _ => ModemAction::Finish(Ok(())),
        }
    }
}

/// Where connecting the client to its broker stands.
#[derive(Debug, Clone, Copy, PartialEq, Eq, Structural)]
pub enum ConnectState {
    /// Opening the TCP connection.
    Opening(OpenProcedure),
    /// `+QMTCONN?` was sent.
    Query,
    /// `+QMTCONN=` was sent.
    Connecting,
    Done,
}

/// The result of the answer to `+QMTCONN=` for client `cid`: `Ok(true)` for a connection,
/// `Ok(false)` never; else the error met or the connect error reported.
pub open spec fn conn_result(resp: AtResponse, cid: u8) -> Result<(), Error> {
    match resp.picked(client_filter(cid), seq![0usize, 1usize, 2usize]) {
        Err(e) => Err(Error::At(e)),
        Ok(w) => if !(u8_of(w[0]) is Some && u8_of(w[1]) is Some && u8_of(w[2]) is Some) {
            Err(Error::At(AtError::ParseError))
        } else if u8_of(w[1]) == Some(0nat) && u8_of(w[2]) == Some(0nat) {
            Ok(())
        } else {
            Err(Error::MqttConnect(connect_error_of((u8_of(w[1])->0) as u8, (u8_of(w[2])->0) as u8)))
        },
    }
}

/// Connecting the client to its broker: open the TCP connection, then, unless the session is
/// already connected, connecting or disconnecting, connect it.
#[derive(Debug, Clone, Copy, PartialEq, Eq, Structural)]
pub struct ConnectProcedure {
    pub state: ConnectState,
    /// The session was connected by this procedure.
    pub connected_now: bool,
}

impl ConnectProcedure {
    /// A procedure that has not begun.
    pub fn new() -> (r: ConnectProcedure)
        ensures
            r.state == ConnectState::Opening(OpenProcedure { state: OpenState::Start }),
            !r.connected_now,
    {
        ConnectProcedure { state: ConnectState::Opening(OpenProcedure::new()), connected_now: false }
    }

    /// The answer handed to `step` can be read without failing on the way.
    pub open spec fn reply_ok(self, client: MqttClient, reply: Result<AtResponse, AtError>) -> bool {
        match self.state {
            ConnectState::Opening(o) => o.reply_ok(client, reply),
            ConnectState::Query => reply matches Ok(resp) ==> resp.pick_ok(
                client_filter(client.client_id),
                seq![0usize, 1usize],
            ),
            ConnectState::Connecting => reply matches Ok(resp) ==> resp.pick_ok(
                client_filter(client.client_id),
                seq![0usize, 1usize, 2usize],
            ),
            ConnectState::Done => true,
        }
    }

    /// Whether `step` can take `reply`.
    pub fn reply_is_safe(&self, client: &MqttClient, reply: &Result<AtResponse, AtError>) -> (r: bool)
        ensures
            r == self.reply_ok(*client, *reply),
    {
        match self.state {
            ConnectState::Opening(o) => o.reply_is_safe(client, reply),
            ConnectState::Query => match reply {
                Err(_) => true,
                Ok(resp) => client.conn_reply_is_safe(resp),
            },
            ConnectState::Connecting => match reply {
                Err(_) => true,
                Ok(resp) => {
                    let idx: [usize; 3] = [0, 1, 2];
                    assert(idx@ =~= seq![0usize, 1usize, 2usize]);
                    resp.pick_is_safe::<u8>(&Some((client.client_id, 0usize)), idx.as_slice())
                },
            },
            ConnectState::Done => true,
        }
    }

    /// Begins by opening the TCP connection.
    pub fn start(&mut self) -> (a: ModemAction)
        requires
            old(self).state == ConnectState::Opening(OpenProcedure { state: OpenState::Start }),
        ensures
            is_call(a, "+QMTOPEN?"@, None),
            final(self).state == ConnectState::Opening(OpenProcedure { state: OpenState::Query }),
            final(self).connected_now == old(self).connected_now,
    {
        let mut o = OpenProcedure::new();
        let a = o.start();
        self.state = ConnectState::Opening(o);
        a
    }

    /// Begins with the connection to the broker already open, as the supervisor opens it in a
    /// step of its own: ask for the state of the session.
    pub fn start_opened(&mut self) -> (a: ModemAction)
        requires
            old(self).state == ConnectState::Opening(OpenProcedure { state: OpenState::Start }),
        ensures
            is_call(a, "+QMTCONN?"@, None),
            final(self).state == ConnectState::Query,
            final(self).connected_now == old(self).connected_now,
    {
        self.state = ConnectState::Query;
        ModemAction::Call(String::from_str("+QMTCONN?"), None)
    }

    /// Takes the answer to the last command and decides what comes next.
    pub fn step(&mut self, client: &MqttClient, reply: Result<AtResponse, AtError>) -> (a: ModemAction)
        requires
            !(old(self).state is Done),
            old(self).state matches ConnectState::Opening(o) ==> !(o.state is Start || o.state is Done),
            old(self).reply_ok(*client, reply),
            client.config.wf(),
        ensures
            (final(self).state, a@, final(self).connected_now) == connect_transition(
                old(self).state,
                *client,
                reply,
            ),
    {
        let cid = client.client_id;
        match self.state {
            ConnectState::Opening(o) => {
                let mut o = o;
                let a = o.step(client, reply);
                match a {
                    ModemAction::Finish(Ok(())) => {
                        self.state = ConnectState::Query;
                        self.connected_now = false;
                        ModemAction::Call(String::from_str("+QMTCONN?"), None)
                    },
                    ModemAction::Finish(Err(e)) => {
                        self.state = ConnectState::Done;
                        self.connected_now = false;
                        ModemAction::Finish(Err(e))
                    },
                    other => {
                        self.state = ConnectState::Opening(o);
                        self.connected_now = false;
                        other
                    },
                }
            },
            ConnectState::Query => {
                self.connected_now = false;
                let resp = match reply {
                    Err(e) => {
                        self.state = ConnectState::Done;
                        return ModemAction::Finish(Err(Error::At(e)));
                    },
                    Ok(resp) => resp,
                };
                let idx: [usize; 2] = [0, 1];
                assert(idx@ =~= seq![0usize, 1usize]);
                match resp.parse2::<u8, u8>(idx, Some(cid)) {
                    Err(e) => {
                        self.state = ConnectState::Done;
                        ModemAction::Finish(Err(Error::At(e)))
                    },
                    Ok((_, status)) => match QmtconnStatus::try_from(status) {
                        None => {
                            self.state = ConnectState::Done;
                            ModemAction::Finish(Err(Error::At(AtError::ModemError)))
                        },
                        Some(QmtconnStatus::Initializing) => {
                            self.state = ConnectState::Connecting;
                            ModemAction::Call(
                                make_conn_command(cid, client.config.name.as_str(), &client.config.credentials),
                                Some(client.config.packet_timeout + MQTT_EXTRA_TIMEOUT_MS),
                            )
                        },
                        Some(_) => {
                            self.state = ConnectState::Done;
                            ModemAction::Finish(Ok(()))
                        },
                    },
                }
            },
            ConnectState::Connecting => {
                self.state = ConnectState::Done;
                let resp = match reply {
                    Err(e) => {
                        self.connected_now = false;
                        return ModemAction::Finish(Err(Error::At(e)));
                    },
                    Ok(resp) => resp,
                };
                let idx: [usize; 3] = [0, 1, 2];
                assert(idx@ =~= seq![0usize, 1usize, 2usize]);
                match resp.parse3::<u8, u8, u8>(idx, cid) {
                    Err(e) => {
                        self.connected_now = false;
                        ModemAction::Finish(Err(Error::At(e)))
                    },
                    Ok((_, res, reason)) => {
                        if res == 0 && reason == 0 {
                            self.connected_now = true;
                            ModemAction::Finish(Ok(()))
                        } else {
                            self.connected_now = false;
                            ModemAction::Finish(Err(Error::MqttConnect(ConnectError::from_code(res, reason))))
                        }
                    },
                }
            },
            ConnectState::Done => ModemAction::Finish(Ok(())),
        }
    }
}

/// Where closing the connection of a client stands.
#[derive(Debug, Clone, Copy, PartialEq, Eq, Structural)]
pub enum DisconnectState {
    Start,
    /// `+QMTCONN?` was sent.
    Query,
    /// `+QMTCLOSE` was sent.
    Closing,
    Done,
}

/// Closing the connection of a client: asked only when the session is connected.
#[derive(Debug, Clone, Copy, PartialEq, Eq, Structural)]
pub struct DisconnectProcedure {
    pub state: DisconnectState,
}

impl DisconnectProcedure {
    /// A procedure that has not begun.
    pub fn new() -> (r: DisconnectProcedure)
        ensures
            r.state == DisconnectState::Start,
    {
        DisconnectProcedure { state: DisconnectState::Start }
    }

    /// Begins: ask for the state of the session.
    pub fn start(&mut self) -> (a: ModemAction)
        requires
            old(self).state is Start,
        ensures
            is_call(a, "+QMTCONN?"@, None),
            final(self).state == DisconnectState::Query,
    {
        self.state = DisconnectState::Query;
        ModemAction::Call(String::from_str("+QMTCONN?"), None)
    }

    /// The answer handed to `step` can be read without failing on the way.
    pub open spec fn reply_ok(self, client: MqttClient, reply: Result<AtResponse, AtError>) -> bool {
        self.state is Query ==> (reply matches Ok(resp) ==> client.conn_reply_ok(resp))
    }

    /// Takes the answer to the last command and decides what comes next.
    pub fn step(&mut self, client: &MqttClient, reply: Result<AtResponse, AtError>) -> (a: ModemAction)
        requires
            old(self).state is Query || old(self).state is Closing,
            old(self).reply_ok(*client, reply),
        ensures
            final(self).state == if (old(self).state is Query && (reply matches Ok(resp)
                && conn_connected(resp, client.client_id))) {
                DisconnectState::Closing
            } else {
                DisconnectState::Done
            },
            match reply {
                Err(e) => a == ModemAction::Finish(Err(Error::At(e))),
                Ok(resp) => if old(self).state is Query && conn_connected(resp, client.client_id) {
                    is_call(a, close_command(client.client_id), Some(ACTIVATION_TIMEOUT_MS))
                } else {
                    a == ModemAction::Finish(Ok(()))
                },
            },
    {
        let resp = match reply {
            Err(e) => {
                self.state = DisconnectState::Done;
                return ModemAction::Finish(Err(Error::At(e)));
            },
            Ok(resp) => resp,
        };
        match self.state {
            DisconnectState::Query => {
                let idx: [usize; 2] = [0, 1];
                assert(idx@ =~= seq![0usize, 1usize]);
                match resp.parse2::<u8, u8>(idx, Some(client.client_id)) {
                    Ok((_, status)) => {
                        if QmtconnStatus::try_from(status) == Some(QmtconnStatus::Connected) {
                            self.state = DisconnectState::Closing;
                            return ModemAction::Call(
                                make_close_command(client.client_id),
                                Some(ACTIVATION_TIMEOUT_MS),
                            );
                        }
                        self.state = DisconnectState::Done;
                        ModemAction::Finish(Ok(()))
                    },
                    Err(_) => {
                        self.state = DisconnectState::Done;
                        ModemAction::Finish(Ok(()))
                    },
                }
            },
            _ => {
                self.state = DisconnectState::Done;
                ModemAction::Finish(Ok(()))
            },
        }
    }
}

/// Where publishing a message stands.
#[derive(Debug, Clone, Copy, PartialEq, Eq, Structural)]
pub enum SendState {
    Start,
    /// `+QMTPUB=` was sent.
    Command,
    /// The payload was written.
    Payload,
    Done,
}

/// What a `+QMTPUB` report with this status means for a message sent with QoS 0.
pub open spec fn qos0_outcome(status: u8) -> Result<(), Error> {
    match qmtpub_code(status, None) {
        StatusCode::Published => Ok(()),
        StatusCode::Retrying(_) => Ok(()),
        StatusCode::Timeout => Err(Error::TimeoutError),
        StatusCode::MqttError => Err(Error::MqttConnect(ConnectError::Unknown(0))),
        StatusCode::Unknown => Err(Error::MqttConnect(ConnectError::Unknown(1))),
    }
}

/// The status of the `+QMTPUB` report in the answer (values 1 and 2: message ID and status), or
/// the error met.
pub open spec fn qmtpub_status(resp: AtResponse) -> Result<nat, AtError> {
    match resp.picked(None::<(u16, usize)>, seq![1usize, 2usize]) {
        Err(e) => Err(e),
        Ok(w) => if parse_unsigned(w[0], 10, 0xffff) is Some && u8_of(w[1]) is Some {
            Ok(u8_of(w[1])->0)
        } else {
            Err(AtError::ParseError)
        },
    }
}

/// Publishing a message: the `+QMTPUB` command, then the payload; with QoS 0 the answer tells
/// whether the message was published.
#[derive(Debug, Clone, Copy, PartialEq, Eq, Structural)]
pub struct SendProcedure {
    pub state: SendState,
    pub qos: MqttQos,
    /// The message was published, as the answer to a QoS 0 message says.
    pub published_now: bool,
}

impl SendProcedure {
    /// Begins publishing `payload_len` bytes on `topic`: sends the command, unless it is longer
    /// than 100 bytes, which fails with `FormatError`.
    pub fn start(client: &MqttClient, topic: &str, payload_len: usize, qos: MqttQos, msg_id: u16) -> (r: (
        SendProcedure,
        ModemAction,
    ))
        ensures
            ({
                let cmd = pub_command(
                    client.client_id,
                    msg_id,
                    match qos {
                        MqttQos::Q0 => 0u8,
                        MqttQos::Q1 => 1u8,
                    },
                    client.config.mac_address@,
                    topic@,
                    payload_len as nat,
                );
                &&& r.0.qos == qos
                &&& !r.0.published_now
                &&& if encode_utf8(cmd).len() <= 100 {
                    is_call(r.1, cmd, None) && r.0.state == SendState::Command
                } else {
                    r.1 == ModemAction::Finish(Err(Error::FormatError)) && r.0.state == SendState::Done
                }
            }),
    {
        let cmd = make_pub_command(
            client.client_id,
            msg_id,
            qos.as_u8(),
            client.config.mac_address.as_str(),
            topic,
            payload_len,
        );
        if utf8_len(cmd.as_str()) > 100 {
            (
                SendProcedure { state: SendState::Done, qos, published_now: false },
                ModemAction::Finish(Err(Error::FormatError)),
            )
        } else {
            (SendProcedure { state: SendState::Command, qos, published_now: false }, ModemAction::Call(cmd, None))
        }
    }

    /// The answer handed to `step` can be read without failing on the way.
    pub open spec fn reply_ok(self, reply: Result<AtResponse, AtError>) -> bool {
        self.state is Payload && self.qos is Q0 ==> (reply matches Ok(resp) ==> resp.pick_ok(
            None::<(u16, usize)>,
            seq![1usize, 2usize],
        ))
    }

    /// Whether `step` can take `reply`.
    pub fn reply_is_safe(&self, reply: &Result<AtResponse, AtError>) -> (r: bool)
        ensures
            r == self.reply_ok(*reply),
    {
        if self.state == SendState::Payload && self.qos == MqttQos::Q0 {
            match reply {
                Err(_) => true,
                Ok(resp) => {
                    let idx: [usize; 2] = [1, 2];
                    assert(idx@ =~= seq![1usize, 2usize]);
                    resp.pick_is_safe::<u16>(&None, idx.as_slice())
                },
            }
        } else {
            true
        }
    }

    /// Takes the answer to the last step: after the command, write the payload (waiting for
    /// the report for a packet timeout with QoS 0); after the payload, the report decides for
    /// QoS 0, and QoS 1 succeeds.
    pub fn step(&mut self, client: &MqttClient, reply: Result<AtResponse, AtError>) -> (a: ModemAction)
        requires
            old(self).state is Command || old(self).state is Payload,
            old(self).reply_ok(reply),
        ensures
            final(self).qos == old(self).qos,
            match reply {
                Err(e) => a == ModemAction::Finish(Err(Error::At(e))) && final(self).state
                    == SendState::Done && !final(self).published_now,
                Ok(resp) => if old(self).state is Command {
                    a@ == Action::SendPayload(
                        "+QMTPUB"@,
                        if old(self).qos is Q0 {
                            Some(client.config.packet_timeout)
                        } else {
                            None
                        },
                    ) && final(self).state == SendState::Payload && !final(self).published_now
                } else {
                    final(self).state == SendState::Done && if old(self).qos is Q1 {
                        a == ModemAction::Finish(Ok(())) && !final(self).published_now
                    } else {
                        match qmtpub_status(resp) {
                            Err(e) => a == ModemAction::Finish(Err(Error::At(e)))
                                && !final(self).published_now,
                            Ok(st) => a == ModemAction::Finish(qos0_outcome(st as u8))
                                && final(self).published_now == (st == 0),
                        }
                    }
                },
            },
    {
        let resp = match reply {
            Err(e) => {
                self.state = SendState::Done;
                self.published_now = false;
                return ModemAction::Finish(Err(Error::At(e)));
            },
            Ok(resp) => resp,
        };
        if self.state == SendState::Command {
            self.state = SendState::Payload;
            self.published_now = false;
            let timeout = if self.qos == MqttQos::Q0 {
                Some(client.config.packet_timeout)
            } else {
                None
            };
            return ModemAction::SendPayload(String::from_str("+QMTPUB"), timeout);
        }
        self.state = SendState::Done;
        self.published_now = false;
        if self.qos == MqttQos::Q1 {
            return ModemAction::Finish(Ok(()));
        }
        let idx: [usize; 2] = [1, 2];
        assert(idx@ =~= seq![1usize, 2usize]);
        match resp.parse2::<u16, u8>(idx, None) {
            Err(e) => ModemAction::Finish(Err(Error::At(e))),
            Ok((msg_id, status)) => {
                let report = MqttStatus::from_bg77_qmtpub(msg_id, status, None);
                match report.code {
                    StatusCode::Published => {
                        self.published_now = true;
                        ModemAction::Finish(Ok(()))
                    },
                    StatusCode::Retrying(_) => ModemAction::Finish(Ok(())),
                    StatusCode::Timeout => ModemAction::Finish(Err(Error::TimeoutError)),
                    StatusCode::MqttError => ModemAction::Finish(
                        Err(Error::MqttConnect(ConnectError::Unknown(0))),
                    ),
                    StatusCode::Unknown => ModemAction::Finish(
                        Err(Error::MqttConnect(ConnectError::Unknown(1))),
                    ),
                }
            },
        }
    }
}

/// What a `+QMTPUB` report of the modem leads to.
#[derive(Debug, Clone, Copy, PartialEq, Eq, Structural)]
pub struct QmtpubReport {
    /// The report was handled (it is about a message with an ID).
    pub handled: bool,
    /// The message was published, which the client notes.
    pub published: bool,
    /// The status to pass on to the backoff loop.
    pub status: Option<MqttStatus>,
}

/// The values of a `+QMTPUB` report, as `u8`s, if they all parse.
pub open spec fn report_values(values: Seq<Seq<char>>) -> Option<Seq<nat>> {
    if forall|i: int| 0 <= i < values.len() ==> u8_of(values[i]) is Some {
        Some(values.map_values(|v: Seq<char>| u8_of(v)->0))
    } else {
        None
    }
}

/// Reading a `+QMTPUB` report indexes no missing value: it has a first value, and three when
/// it is about client `cid`.
pub open spec fn report_readable(response: CommandResponse, cid: u8) -> bool {
    report_values(response.values_spec()) matches Some(v) ==> v.len() >= 1 && (v[0] == cid ==> v.len()
        >= 3)
}

/// What a `+QMTPUB` report with the values `response` leads to for client `cid`.
pub open spec fn qmtpub_report_spec(response: CommandResponse, cid: u8) -> QmtpubReport {
    match report_values(response.values_spec()) {
        None => QmtpubReport { handled: false, published: false, status: None },
        Some(v) => if v[0] != cid {
            QmtpubReport { handled: false, published: false, status: None }
        } else {
            let code = qmtpub_code(v[2] as u8, if v.len() > 3 { Some(v[3] as u8) } else { None });
            let status = MqttStatus { msg_id: v[1] as u16, code };
            QmtpubReport {
                handled: v[1] > 0,
                published: code == StatusCode::Published,
                status: if v[1] > 0 {
                    Some(status)
                } else {
                    None
                },
            }
        },
    }
}

/// What a `+QMTPUB` report says: when its values are the `u8`s `v`, a report about another
/// client is neither handled nor a publication; one about client `cid` is a publication exactly
/// when its status (value 2) is 0, is handled exactly when its message ID (value 1) is not 0,
/// and then passes on the status of that message: published for 0, retrying with the count of
/// value 3 (or 0) for 1, timed out for 2, unknown otherwise.
pub proof fn lemma_qmtpub_report(response: CommandResponse, cid: u8, v: Seq<nat>)
    requires
        report_values(response.values_spec()) == Some(v),
        v.len() >= 1,
        v[0] == cid ==> v.len() >= 3,
    ensures
        v[0] != cid ==> !qmtpub_report_spec(response, cid).handled && !qmtpub_report_spec(
            response,
            cid,
        ).published && qmtpub_report_spec(response, cid).status is None,
        v[0] == cid ==> {
            let r = qmtpub_report_spec(response, cid);
            &&& r.published <==> v[2] == 0
            &&& r.handled <==> v[1] != 0
            &&& v[1] == 0 ==> r.status is None
            &&& v[1] != 0 ==> r.status is Some
            &&& v[1] != 0 ==> r.status->0.msg_id == v[1]
            &&& v[1] != 0 && v[2] == 0 ==> r.status->0.code == StatusCode::Published
            &&& v[1] != 0 && v[2] == 1 ==> r.status->0.code == StatusCode::Retrying(
                if v.len() > 3 { v[3] as u8 } else { 0 },
            )
            &&& v[1] != 0 && v[2] == 2 ==> r.status->0.code == StatusCode::Timeout
            &&& v[1] != 0 && v[2] > 2 ==> r.status->0.code == StatusCode::Unknown
        },
{
    if v[0] == cid {
        let vals = response.values_spec();
        assert(forall|i: int| 0 <= i < v.len() ==> v[i] == u8_of(vals[i])->0);
        assert(forall|i: int| 0 <= i < v.len() ==> #[trigger] v[i] <= 0xff) by {
            assert forall|i: int| 0 <= i < v.len() implies #[trigger] v[i] <= 0xff by {
                assert(u8_of(vals[i]) is Some);
            }
        }
        assert(v[1] <= 0xff && v[2] <= 0xff);
    }
}

/// Handles a `+QMTPUB: <client>,<msg_id>,<status>[,<retries>]` report for client `cid`.
///
/// A report about another client, or whose values are not all `u8`, is not handled. A
/// published message is noted; a status is passed on, and the report handled, for a message
/// with an ID (ID 0 is for QoS 0 messages).
pub fn qmtpub_report(response: &CommandResponse, cid: u8) -> (r: QmtpubReport)
    requires
        response.has_values(),
        report_readable(*response, cid),
    ensures
        r == qmtpub_report_spec(*response, cid),
{
    let values = match response.parse_values::<u8>() {
        Ok(v) => v,
        Err(_) => {
            return QmtpubReport { handled: false, published: false, status: None };
        },
    };
    proof {
        let w = report_values(response.values_spec())->0;
        assert forall|i: int| 0 <= i < values@.len() implies values@[i] as nat == w[i] by {}
    }
    if values[0] == cid {
        let status = MqttStatus::from_bg77_qmtpub(values[1] as u16, values[2], values.get(3));
        let published = status.code == StatusCode::Published;
        if status.msg_id > 0 {
            QmtpubReport { handled: true, published, status: Some(status) }
        } else {
            QmtpubReport { handled: false, published, status: None }
        }
    } else {
        QmtpubReport { handled: false, published: false, status: None }
    }
}

/// What an unsolicited report of the modem means for the MQTT client.
#[derive(Debug, Clone, Copy, PartialEq, Eq, Structural)]
pub enum MqttUrc {
    /// `+QMTSTAT`: the session was lost; the backoff loop and the supervisor are told, with
    /// this event.
    Disconnected(ConnectionEvent),
    /// `+QIURC`: the packet data context was deactivated; the supervisor is told, with this
    /// event.
    PdpDeactivated(ConnectionEvent),
    /// `+CEREG` with four values: a registration report, handled here with nothing to do.
    Registration,
    /// `+QMTPUB`: a publication report.
    Publication(QmtpubReport),
    /// Not a report for the MQTT client.
    NotHandled,
}

impl MqttUrc {
    /// Whether the report was handled: every classified report but a publication report
    /// that is not handled.
    pub open spec fn handled_spec(self) -> bool {
        match self {
            MqttUrc::NotHandled => false,
            MqttUrc::Publication(report) => report.handled,
            _ => true,
        }
    }

    /// Whether the report was handled.
    pub fn handled(&self) -> (r: bool)
        ensures
            r == self.handled_spec(),
    {
        match self {
            MqttUrc::NotHandled => false,
            MqttUrc::Publication(report) => report.handled,
            _ => true,
        }
    }
}

/// Classifies an unsolicited report for the MQTT client `cid`: `+QMTSTAT` is a lost session,
/// `+QIURC` a deactivated context, `+CEREG` with four values a registration report and
/// `+QMTPUB` a publication report; anything else is not handled.
pub fn mqtt_urc(response: &CommandResponse, cid: u8) -> (r: MqttUrc)
    requires
        response.command_spec() == "QMTPUB"@ ==> response.has_values() && report_readable(*response, cid),
        response.command_spec() == "CEREG"@ ==> response.has_values(),
    ensures
        r == if response.command_spec() == "QMTSTAT"@ {
            MqttUrc::Disconnected(ConnectionEvent::MqttDisconnect(TcpError::Unknown(1)))
        } else if response.command_spec() == "QIURC"@ {
            MqttUrc::PdpDeactivated(ConnectionEvent::PdpDeactivate)
        } else if response.command_spec() == "CEREG"@ && response.values_spec().len() == 4 {
            MqttUrc::Registration
        } else if response.command_spec() == "QMTPUB"@ {
            MqttUrc::Publication(qmtpub_report_spec(*response, cid))
        } else {
            MqttUrc::NotHandled
        },
{
    let command = response.command();
    proof {
        reveal_strlit("QMTSTAT");
        reveal_strlit("QMTPUB");
        reveal_strlit("QIURC");
        reveal_strlit("CEREG");
        assert("QMTPUB"@.len() == 6);
        assert("QMTSTAT"@.len() == 7);
        assert("QMTPUB"@ != "QMTSTAT"@);
        assert("QIURC"@[1] != "QMTPUB"@[1]);
        assert("CEREG"@[0] != "QMTPUB"@[0]);
        assert("QIURC"@[1] != "QMTSTAT"@[1]);
        assert("CEREG"@[0] != "QMTSTAT"@[0]);
        assert("QIURC"@[0] != "CEREG"@[0]);
    }
    if str_eq(command, "QMTSTAT") {
        MqttUrc::Disconnected(ConnectionEvent::MqttDisconnect(TcpError::Unknown(1)))
    } else if str_eq(command, "QIURC") {
        MqttUrc::PdpDeactivated(ConnectionEvent::PdpDeactivate)
    } else if str_eq(command, "CEREG") {
        if response.values().len() == 4 {
            MqttUrc::Registration
        } else {
            MqttUrc::NotHandled
        }
    } else if str_eq(command, "QMTPUB") {
        MqttUrc::Publication(qmtpub_report(response, cid))
    } else {
        MqttUrc::NotHandled
    }
}

} // verus!
