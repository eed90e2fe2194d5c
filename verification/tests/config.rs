use inverter_codec::config::{
    CommandConfig, Config, InverterConfig, MqttAuth, MqttConfig, RequestParams, ResponseParams,
    UsbConfig,
};

fn config(commands: &[&str]) -> Config {
    Config {
        inverter: InverterConfig {
            id: "inverter".to_string(),
            name: "Inverter".to_string(),
            manufacturer: "Maker".to_string(),
            model: "Model".to_string(),
            usb: UsbConfig {
                vendor_id: 0x0665,
                product_id: 0x5161,
                interface: 0,
                request_params: RequestParams {
                    request_type: 0x21,
                    request: 0x09,
                    value: 0x0200,
                    index: 0,
                    timeout_ms: 1000,
                },
                response_params: ResponseParams { endpoint: 0x81, timeout_ms: 1000 },
            },
            commands: commands
                .iter()
                .map(|c| CommandConfig { command: c.to_string(), sensors: vec![] })
                .collect(),
        },
        mqtt: MqttConfig {
            address: "localhost:1883".to_string(),
            auth: Some(MqttAuth { user: "user".to_string(), password: "secret".to_string() }),
        },
    }
}

#[test]
fn commands_that_fit_are_accepted() {
    assert_eq!(config(&[]).inverter.find_long_command(), None);
    assert_eq!(config(&["QPIGS", "QID", ""]).inverter.find_long_command(), None);
}

#[test]
fn first_long_command_is_found() {
    assert_eq!(
        config(&["QPIGS", "QPIGS2", "QMOD", "QPIRI12"]).inverter.find_long_command(),
        Some(1)
    );
    assert_eq!(config(&["QPIGS2"]).inverter.find_long_command(), Some(0));
}

#[test]
fn command_length_is_counted_in_bytes() {
    assert_eq!(config(&["äöü"]).inverter.find_long_command(), Some(0));
    assert_eq!(config(&["äö"]).inverter.find_long_command(), None);
}

#[test]
fn transfer_parameters_can_be_cloned() {
    let cfg = config(&[]);
    let request = cfg.inverter.usb.request_params.clone();
    let response = cfg.inverter.usb.response_params.clone();
    assert_eq!(request.request_type, 0x21);
    assert_eq!(request.request, 0x09);
    assert_eq!(request.value, 0x0200);
    assert_eq!(request.index, 0);
    assert_eq!(request.timeout_ms, 1000);
    assert_eq!(response.endpoint, 0x81);
    assert_eq!(response.timeout_ms, 1000);
}
