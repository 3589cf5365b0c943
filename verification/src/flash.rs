//! The keys under which configurations are stored in flash.
use vstd::prelude::*;

verus! {

/// A stored configuration.
#[derive(Debug, Clone, Copy, PartialEq, Eq, Structural)]
pub enum ValueIndex {
    DeviceConfig,
    ModemConfig,
    MqttConfig,
}

impl ValueIndex {
    /// The key of the configuration in flash.
    pub fn key(self) -> (r: u8)
        ensures
            r == match self {
                ValueIndex::DeviceConfig => 0u8,
                ValueIndex::ModemConfig => 1u8,
                ValueIndex::MqttConfig => 2u8,
            },
    {
        match self {
            ValueIndex::DeviceConfig => 0,
            ValueIndex::ModemConfig => 1,
            ValueIndex::MqttConfig => 2,
        }
    }
}

} // verus!
