//! The settings that the program is started with.

use crate::frame::MAX_COMMAND_LENGTH;
use vstd::prelude::*;
use vstd::utf8::encode_utf8;

verus! {

/// All settings.
#[derive(Debug)]
pub struct Config {
    pub inverter: InverterConfig,
    pub mqtt: MqttConfig,
}

/// The inverter, how to reach it and what to ask it.
#[derive(Debug)]
pub struct InverterConfig {
    pub id: String,
    pub name: String,
    pub manufacturer: String,
    pub model: String,
    pub usb: UsbConfig,
    pub commands: Vec<CommandConfig>,
}

/// The USB device and the transfers that carry requests and responses.
#[derive(Debug)]
pub struct UsbConfig {
    pub vendor_id: u16,
    pub product_id: u16,
    pub interface: u8,
    pub request_params: RequestParams,
    pub response_params: ResponseParams,
}

/// The control transfer that carries a request.
#[derive(Debug, Clone)]
pub struct RequestParams {
    pub request_type: u8,
    pub request: u8,
    pub value: u16,
    pub index: u16,
    pub timeout_ms: u32,
}

/// The bulk transfer that carries a chunk of a response.
#[derive(Debug, Clone)]
pub struct ResponseParams {
    pub endpoint: u8,
    pub timeout_ms: u32,
}

/// A command and the sensors that the tokens of its response belong to, in
/// the order of the tokens. `None` stands for a token that is not reported.
#[derive(Debug)]
pub struct CommandConfig {
    pub command: String,
    pub sensors: Vec<Option<SensorConfig>>,
}

/// A sensor: the name it is reported under, and how its token is read.
#[derive(Debug)]
pub struct SensorConfig {
    pub name: String,
    pub human_name: Option<String>,
    pub value_type: ValueType,
    pub device_class: String,
    pub unit_of_measurement: String,
    pub icon: String,
}

/// The type that a sensor's token is converted to.
#[derive(Debug)]
pub enum ValueType {
    Integer,
    Float,
    String,
}

/// The message broker.
#[derive(Debug)]
pub struct MqttConfig {
    pub address: String,
    pub auth: Option<MqttAuth>,
}

/// The credentials for the message broker.
#[derive(Debug)]
pub struct MqttAuth {
    pub user: String,
    pub password: String,
}

impl CommandConfig {
    /// Whether the command is too long for one request frame.
    pub open spec fn too_long(&self) -> bool {
        encode_utf8(self.command@).len() > MAX_COMMAND_LENGTH
    }
}

impl InverterConfig {
    /// Looks for a command that is too long for one request frame. Returns
    /// the position of the first one.
    pub fn find_long_command(&self) -> (r: Option<usize>)
        ensures
            match r {
                Some(at) => {
                    &&& at < self.commands@.len()
                    &&& self.commands@[at as int].too_long()
                    &&& forall|i: int| 0 <= i < at ==> !(#[trigger] self.commands@[i]).too_long()
                },
                None => forall|i: int|
                    0 <= i < self.commands@.len() ==> !(#[trigger] self.commands@[i]).too_long(),
            },
    {
        let mut at: usize = 0;
        while at < self.commands.len()
            invariant
                at <= self.commands@.len(),
                forall|i: int| 0 <= i < at ==> !(#[trigger] self.commands@[i]).too_long(),
            decreases self.commands@.len() - at,
        {
            if self.commands[at].command.as_str().as_bytes().len() > MAX_COMMAND_LENGTH {
                return Some(at);
            }
            at = at + 1;
        }
        None
    }
}

} // verus!
