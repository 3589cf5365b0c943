//! The error type of the library.
use vstd::prelude::*;

use crate::at::AtError;
use crate::modem::RegistrationError;
use crate::mqtt::{ConnectError, TcpError};

verus! {

/// Errors of the library.
#[derive(Debug, Clone, Copy, PartialEq, Eq, Structural)]
pub enum Error {
    BufferTooSmallError,
    /// Formatting failed, usually because a buffer was too small.
    FormatError,
    ParseError,
    /// A function argument was wrong.
    ValueError,
    SoftdeviceError,
    FlashError,
    UartReadError,
    UsbReadError,
    UsbDisconnected,
    UsbWriteError,
    UartClosedError,
    At(AtError),
    Registration(RegistrationError),
    MqttTcp(TcpError),
    MqttConnect(ConnectError),
    SemaphoreError,
    TimeoutError,
    NotConnected,
}

} // verus!
