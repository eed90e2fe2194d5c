use std::collections::HashMap;

use inverter_codec::config::{CommandConfig, SensorConfig, ValueType};
use inverter_codec::frame::CHUNK_LENGTH;
use inverter_codec::inverter::{
    read_sensor, read_sensors, DeviceError, InverterError, ParseResponseError, Reading, Request,
    ResponseReader, SensorValue, MAX_COMMAND_LENGTH,
};

const ENCODED_STATUS_CMD: &'static [u8] = &[81, 80, 73, 71, 83, 183, 169, 13];

trait InverterDevice {
    fn send_request(&mut self, buf: &[u8]) -> Result<usize, DeviceError>;
    fn read_response(&mut self, buf: &mut [u8]) -> Result<usize, DeviceError>;
}

struct Inverter<T: InverterDevice> {
    dev: T,
}

fn parse_float(token: &str) -> Result<f64, std::num::ParseFloatError> {
    token.parse::<f64>()
}

impl<T: InverterDevice> Inverter<T> {
    fn new(dev: T) -> Self {
        Self { dev }
    }

    fn execute_command(
        &mut self,
        cfg: &CommandConfig,
    ) -> Result<HashMap<String, SensorValue<f64>>, InverterError> {
        let request = Request::new(&cfg.command)?;
        let outcome = self.dev.send_request(request.frame());
        let mut reader = request.sent(outcome)?;
        let response = loop {
            let mut buf = [0u8; CHUNK_LENGTH];
            let outcome = self.dev.read_response(&mut buf);
            match reader.received(outcome.map(|_| &buf[..]))? {
                Reading::Partial(next) => reader = next,
                Reading::Complete(text) => break text,
            }
        };
        let readings = read_sensors(&cfg.sensors, &response, &parse_float)?;
        let mut sensors_data = HashMap::new();
        for sensor in cfg.sensors.iter().flatten() {
            if let Some(value) = readings.get(&sensor.name) {
                let value = match value {
                    SensorValue::Integer(v) => SensorValue::Integer(*v),
                    SensorValue::Float(v) => SensorValue::Float(*v),
                    SensorValue::String(v) => SensorValue::String(v.clone()),
                };
                sensors_data.insert(sensor.name.clone(), value);
            }
        }
        assert_eq!(sensors_data.len(), readings.len());
        Ok(sensors_data)
    }
}

struct TestInverterDevice<'req, 'resp> {
    expected_request: &'req [u8],
    response: &'resp [u8],
}

impl<'req, 'resp> TestInverterDevice<'req, 'resp> {
    fn new(expected_request: &'req [u8], response: &'resp [u8]) -> Self {
        Self { expected_request, response }
    }
}

impl<'req, 'resp> InverterDevice for TestInverterDevice<'req, 'resp> {
    fn send_request(&mut self, buf: &[u8]) -> Result<usize, DeviceError> {
        assert_eq!(buf, self.expected_request);
        Ok(0)
    }

    fn read_response(&mut self, buf: &mut [u8]) -> Result<usize, DeviceError> {
        let (cur_resp, rest) = self.response.split_at(buf.len());
        buf.copy_from_slice(cur_resp);
        self.response = rest;
        Ok(buf.len())
    }
}

struct FailingDevice {
    send: Result<usize, rusb::Error>,
    reads_before_failure: usize,
}

impl InverterDevice for FailingDevice {
    fn send_request(&mut self, _buf: &[u8]) -> Result<usize, DeviceError> {
        self.send.map_err(|source| DeviceError::Usb { source })
    }

    fn read_response(&mut self, buf: &mut [u8]) -> Result<usize, DeviceError> {
        if self.reads_before_failure == 0 {
            return Err(DeviceError::Usb { source: rusb::Error::Timeout });
        }
        self.reads_before_failure -= 1;
        buf.copy_from_slice(b"(0 233.7");
        Ok(buf.len())
    }
}

fn sensor(name: &str, value_type: ValueType) -> Option<SensorConfig> {
    Some(SensorConfig {
        name: name.to_string(),
        human_name: None,
        value_type,
        device_class: "voltage".to_string(),
        unit_of_measurement: "V".to_string(),
        icon: "mdi:power-plug".to_string(),
    })
}

fn bare(name: &str, value_type: ValueType) -> SensorConfig {
    sensor(name, value_type).unwrap()
}

fn read(
    sensors: Vec<Option<SensorConfig>>,
    response: &str,
) -> Result<Vec<(String, SensorValue<f64>)>, InverterError> {
    let readings = read_sensors(&sensors, response, &parse_float)?;
    let mut names: Vec<String> = sensors.iter().flatten().map(|s| s.name.clone()).collect();
    names.sort();
    names.dedup();
    let mut found = Vec::new();
    for name in names {
        if let Some(value) = readings.get(&name) {
            let value = match value {
                SensorValue::Integer(v) => SensorValue::Integer(*v),
                SensorValue::Float(v) => SensorValue::Float(*v),
                SensorValue::String(v) => SensorValue::String(v.clone()),
            };
            found.push((name, value));
        }
    }
    assert_eq!(found.len(), readings.len());
    Ok(found)
}

#[test]
fn test_inverter_execute_command() {
    let mut inverter = Inverter::new(TestInverterDevice::new(
        ENCODED_STATUS_CMD,
        &[
            b'(', b'0', b' ', b'2', b'3', b'3', b'.', b'7', 0x09, 0xc7, 13, 0, 0, 0, 0, 0,
        ],
    ));
    let command_config = CommandConfig {
        command: "QPIGS".to_string(),
        sensors: vec![
            None,
            Some(SensorConfig {
                name: "sensor1".to_string(),
                human_name: None,
                value_type: ValueType::Float,
                device_class: "voltage".to_string(),
                unit_of_measurement: "V".to_string(),
                icon: "mdi:power-plug".to_string(),
            }),
        ],
    };
    let mut expected_result = HashMap::new();
    expected_result.insert("sensor1".to_string(), SensorValue::Float(233.7));
    assert_eq!(inverter.execute_command(&command_config).unwrap(), expected_result);
}

#[test]
fn test_inverter_execute_command_invalid_crc() {
    let mut inverter = Inverter::new(TestInverterDevice::new(
        ENCODED_STATUS_CMD,
        &[
            b'(', b'0', b' ', b'2', b'3', b'3', b'.', b'7', 0x09, 0xc8, 13, 0, 0, 0, 0, 0,
        ],
    ));
    let command_config = CommandConfig { command: "QPIGS".to_string(), sensors: vec![None] };
    assert_eq!(
        inverter.execute_command(&command_config).unwrap_err(),
        InverterError::InvalidCrc {
            expected: "0x09c7".to_string(),
            actual: "0x09c8".to_string(),
            data: "(0 233.7".to_string(),
        }
    );
}

#[test]
fn test_inverter_execute_command_invalid_value() {
    let mut inverter = Inverter::new(TestInverterDevice::new(
        ENCODED_STATUS_CMD,
        &[b'(', b'a', 0xf3, 0xc8, 13, 0, 0, 0],
    ));
    let command_config = CommandConfig {
        command: "QPIGS".to_string(),
        sensors: vec![Some(SensorConfig {
            name: "sensor1".to_string(),
            human_name: None,
            value_type: ValueType::Float,
            device_class: "voltage".to_string(),
            unit_of_measurement: "V".to_string(),
            icon: "mdi:power-plug".to_string(),
        })],
    };
    assert_eq!(
        inverter.execute_command(&command_config).unwrap_err(),
        InverterError::ParseResponse {
            source: ParseResponseError::ExpectedFloat {
                sensor: "sensor1".to_string(),
                source: "a".parse::<f64>().unwrap_err()
            }
        }
    );
}

#[test]
fn longest_command_fills_the_frame() {
    assert_eq!(MAX_COMMAND_LENGTH + 3, ENCODED_STATUS_CMD.len());
}

#[test]
fn execute_refuses_long_command_before_sending() {
    let mut inverter = Inverter::new(TestInverterDevice::new(&[], &[]));
    let command_config = CommandConfig { command: "QPIGS2".to_string(), sensors: vec![] };
    assert_eq!(
        inverter.execute_command(&command_config).unwrap_err(),
        InverterError::CommandTooLong { cmd: "QPIGS2".to_string() }
    );
}

#[test]
fn execute_wraps_send_failure() {
    let mut inverter =
        Inverter::new(FailingDevice { send: Err(rusb::Error::NoDevice), reads_before_failure: 0 });
    let command_config = CommandConfig { command: "QPIGS".to_string(), sensors: vec![] };
    assert_eq!(
        inverter.execute_command(&command_config).unwrap_err(),
        InverterError::Device { source: DeviceError::Usb { source: rusb::Error::NoDevice } }
    );
}

#[test]
fn execute_wraps_read_failure() {
    let mut inverter = Inverter::new(FailingDevice { send: Ok(8), reads_before_failure: 1 });
    let command_config = CommandConfig { command: "QPIGS".to_string(), sensors: vec![] };
    assert_eq!(
        inverter.execute_command(&command_config).unwrap_err(),
        InverterError::Device { source: DeviceError::Usb { source: rusb::Error::Timeout } }
    );
}

#[test]
fn request_holds_the_encoded_frame() {
    let request = Request::new("QPIGS").unwrap();
    assert_eq!(request.frame(), ENCODED_STATUS_CMD);
}

#[test]
fn reader_reassembles_two_chunks() {
    let reader: ResponseReader = Request::new("QPIGS").unwrap().sent(Ok(8)).unwrap();
    let reader = match reader.received(Ok(b"(0 233.7")) {
        Ok(Reading::Partial(reader)) => reader,
        _ => panic!("the response is not complete after its first chunk"),
    };
    match reader.received(Ok(&[0x09, 0xc7, 0x0d, 0, 0, 0, 0, 0])) {
        Ok(Reading::Complete(text)) => assert_eq!(text, "0 233.7"),
        _ => panic!("the response is complete after its second chunk"),
    }
}

#[test]
fn reader_passes_over_empty_chunks() {
    let reader = Request::new("QPIGS").unwrap().sent(Ok(8)).unwrap();
    let reader = match reader.received(Ok(&[0; 8])) {
        Ok(Reading::Partial(reader)) => reader,
        _ => panic!("a chunk of padding does not end the response"),
    };
    let reader = match reader.received(Ok(b"(0 233.7")) {
        Ok(Reading::Partial(reader)) => reader,
        _ => panic!("the response is not complete after its first chunk"),
    };
    match reader.received(Ok(&[0x09, 0xc7, 0x0d])) {
        Ok(Reading::Complete(text)) => assert_eq!(text, "0 233.7"),
        _ => panic!("the response is complete after its last chunk"),
    }
}

#[test]
fn reader_rejects_end_marker_alone() {
    let reader = Request::new("QPIGS").unwrap().sent(Ok(8)).unwrap();
    match reader.received(Ok(&[0x0d, 0, 0, 0, 0, 0, 0, 0])) {
        Err(e) => assert_eq!(e, InverterError::MissingResponseMarker),
        Ok(_) => panic!("an empty response has no start marker"),
    }
}

#[test]
fn read_sensor_by_type() {
    assert_eq!(
        read_sensor(&bare("a", ValueType::Integer), "-42", &parse_float),
        Ok(SensorValue::Integer(-42))
    );
    assert_eq!(
        read_sensor(&bare("a", ValueType::Float), "-42.5", &parse_float),
        Ok(SensorValue::Float(-42.5))
    );
    assert_eq!(
        read_sensor(&bare("a", ValueType::String), "-42.5x", &parse_float),
        Ok(SensorValue::String("-42.5x".to_string()))
    );
}

#[test]
fn read_sensor_integer_limits() {
    let s = bare("a", ValueType::Integer);
    assert_eq!(
        read_sensor(&s, "9223372036854775807", &parse_float),
        Ok(SensorValue::Integer(i64::MAX))
    );
    assert_eq!(
        read_sensor(&s, "-9223372036854775808", &parse_float),
        Ok(SensorValue::Integer(i64::MIN))
    );
    assert_eq!(read_sensor(&s, "+0007", &parse_float), Ok(SensorValue::Integer(7)));
    for bad in ["9223372036854775808", "-9223372036854775809", "1.0", "+", "-", "1_000", "0x10"] {
        assert_eq!(
            read_sensor(&s, bad, &parse_float),
            Err(ParseResponseError::ExpectedInteger {
                sensor: "a".to_string(),
                source: bad.parse::<i64>().unwrap_err()
            })
        );
    }
}

#[test]
fn read_sensors_positional() {
    assert_eq!(
        read(vec![None, sensor("sensor1", ValueType::Float)], "0 233.7"),
        Ok(vec![("sensor1".to_string(), SensorValue::Float(233.7))])
    );
}

#[test]
fn read_sensors_of_each_type() {
    assert_eq!(
        read(
            vec![
                sensor("a", ValueType::Integer),
                sensor("b", ValueType::Float),
                sensor("c", ValueType::String),
            ],
            " 12\t0.5\n01001 "
        ),
        Ok(vec![
            ("a".to_string(), SensorValue::Integer(12)),
            ("b".to_string(), SensorValue::Float(0.5)),
            ("c".to_string(), SensorValue::String("01001".to_string())),
        ])
    );
}

#[test]
fn read_sensors_drops_sensors_without_token() {
    assert_eq!(
        read(vec![sensor("a", ValueType::Integer), sensor("b", ValueType::Integer)], "7"),
        Ok(vec![("a".to_string(), SensorValue::Integer(7))])
    );
    assert_eq!(read(vec![sensor("a", ValueType::Integer)], "   "), Ok(vec![]));
}

#[test]
fn read_sensors_drops_tokens_without_sensor() {
    assert_eq!(
        read(vec![sensor("a", ValueType::Integer)], "7 x y"),
        Ok(vec![("a".to_string(), SensorValue::Integer(7))])
    );
    assert_eq!(read(vec![], "7 x y"), Ok(vec![]));
}

#[test]
fn read_sensors_does_not_check_skipped_tokens() {
    assert_eq!(
        read(vec![None, sensor("a", ValueType::Integer), None], "x 7 y"),
        Ok(vec![("a".to_string(), SensorValue::Integer(7))])
    );
}

#[test]
fn read_sensors_keeps_last_value_of_a_name() {
    assert_eq!(
        read(
            vec![
                sensor("a", ValueType::Integer),
                sensor("b", ValueType::Integer),
                sensor("a", ValueType::String),
            ],
            "1 2 three"
        ),
        Ok(vec![
            ("a".to_string(), SensorValue::String("three".to_string())),
            ("b".to_string(), SensorValue::Integer(2)),
        ])
    );
}

#[test]
fn read_sensors_fails_on_first_bad_token() {
    assert_eq!(
        read(
            vec![
                sensor("a", ValueType::Integer),
                sensor("b", ValueType::Float),
                sensor("c", ValueType::Integer),
            ],
            "1 x y"
        ),
        Err(InverterError::ParseResponse {
            source: ParseResponseError::ExpectedFloat {
                sensor: "b".to_string(),
                source: "x".parse::<f64>().unwrap_err()
            }
        })
    );
    assert_eq!(
        read(
            vec![sensor("a", ValueType::Integer), sensor("b", ValueType::Float)],
            "1.5 x"
        ),
        Err(InverterError::ParseResponse {
            source: ParseResponseError::ExpectedInteger {
                sensor: "a".to_string(),
                source: "1.5".parse::<i64>().unwrap_err()
            }
        })
    );
}

#[test]
fn read_sensors_ignores_bad_token_without_sensor() {
    assert_eq!(
        read(vec![sensor("a", ValueType::Integer)], "1 x"),
        Ok(vec![("a".to_string(), SensorValue::Integer(1))])
    );
}
