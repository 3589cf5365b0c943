//! Verified core of YAROC: the AT-command protocol of the Quectel BG77 modem, SportIdent punch
//! records, MQTT status codes and the connection state machine.
pub mod at;
pub mod backoff;
pub mod bounded;
pub mod connection;
pub mod error;
pub mod flash;
pub mod modem;
pub mod mqtt;
pub mod mqtt_client;
pub mod punch;
pub mod receive;
pub mod si_uart;
pub mod system_info;
pub mod text;
pub mod usb;
