use zmqtt2prom::device::{Device, DeviceDefinition, DeviceInfo, DeviceRegistry};
use zmqtt2prom::expose::{BinaryValue, Expose, ExposeType, FlattenedExpose};
use zmqtt2prom::json::{JsonNumber, JsonValue};
use zmqtt2prom::metrics::{
    convert_to_metric_value, metric_label_names, payload_samples, process_payload, report_samples,
    GaugeSample, GaugeValue, ReportOutcome,
};

fn float(x: f64) -> JsonValue {
    JsonValue::Number(JsonNumber::Float(x.to_bits()))
}

fn object(members: Vec<(&str, JsonValue)>) -> JsonValue {
    JsonValue::Object(members.into_iter().map(|(k, v)| (k.to_string(), v)).collect())
}

fn test_device(name: &str) -> Device {
    Device {
        disabled: Some(false),
        friendly_name: name.to_string(),
        ieee_address: "0x00158d0001234567".to_string(),
        interview_completed: Some(true),
        manufacturer: Some("Test".to_string()),
        model_id: Some("TEST-001".to_string()),
        network_address: Some(12345),
        supported: Some(true),
        device_type: Some("EndDevice".to_string()),
        definition: None,
    }
}

fn flat(property: &str, expose_type: ExposeType, unit: Option<&str>) -> FlattenedExpose {
    FlattenedExpose {
        property: property.to_string(),
        expose_type,
        unit: unit.map(|u| u.to_string()),
        value_on: None,
        value_off: None,
    }
}

fn test_device_info() -> DeviceInfo {
    let mut state = flat("state", ExposeType::Binary, None);
    state.value_on = Some(BinaryValue::String("ON".to_string()));
    state.value_off = Some(BinaryValue::String("OFF".to_string()));
    DeviceInfo {
        device: test_device("test_sensor"),
        exposes: vec![flat("temperature", ExposeType::Numeric, Some("°C")), state],
    }
}

fn labels(strs: &[&str]) -> Vec<String> {
    strs.iter().map(|s| s.to_string()).collect()
}

fn create_test_device_registry() -> DeviceRegistry {
    let mut registry = DeviceRegistry::new();
    registry.insert(test_device_info());
    registry
}

fn readings(registry: &DeviceRegistry, name: &str, payload: &[u8]) -> Vec<GaugeSample> {
    match report_samples(registry, name, payload) {
        ReportOutcome::Samples(samples) => samples,
        ReportOutcome::UnknownDevice => panic!("device {} is not registered", name),
        ReportOutcome::InvalidJson => panic!("payload is not valid JSON"),
    }
}

#[test]
fn test_process_numeric_payload() {
    let registry = create_test_device_registry();
    let samples = readings(&registry, "test_sensor", br#"{"temperature": 25.5}"#);

    assert_eq!(samples.len(), 1);
    assert_eq!(
        samples[0].labels,
        labels(&["test_sensor", "Test", "0x00158d0001234567", "12345", "TEST-001", "EndDevice", "temperature", "°C"])
    );
    assert_eq!(samples[0].value, GaugeValue::Number(JsonNumber::Float(25.5f64.to_bits())));
}

#[test]
fn test_process_binary_payload() {
    let registry = create_test_device_registry();
    let samples = readings(&registry, "test_sensor", br#"{"state": "ON"}"#);

    assert_eq!(samples.len(), 1);
    assert_eq!(samples[0].labels[6], "state");
    assert_eq!(samples[0].labels[7], "");
    assert_eq!(samples[0].value, GaugeValue::One);
}

#[test]
fn test_skip_null_values() {
    let registry = create_test_device_registry();
    let samples = readings(&registry, "test_sensor", br#"{"temperature": null}"#);
    assert!(samples.is_empty());
}

#[test]
fn test_nested_payload() {
    let mut registry = DeviceRegistry::new();
    registry.insert(DeviceInfo {
        device: test_device("nested_sensor"),
        exposes: vec![flat("color_x", ExposeType::Numeric, None)],
    });
    let samples = readings(&registry, "nested_sensor", br#"{"color": {"x": 0.3}}"#);

    assert_eq!(samples.len(), 1);
    assert_eq!(samples[0].labels[6], "color_x");
    assert_eq!(samples[0].value, GaugeValue::Number(JsonNumber::Float(0.3f64.to_bits())));
}

#[test]
fn reports_from_unknown_devices_or_not_json() {
    let registry = create_test_device_registry();
    assert!(matches!(
        report_samples(&registry, "other", br#"{"temperature": 25.5}"#),
        ReportOutcome::UnknownDevice
    ));
    assert!(matches!(report_samples(&registry, "other", b"not json"), ReportOutcome::UnknownDevice));
    assert!(matches!(report_samples(&registry, "test_sensor", b"not json"), ReportOutcome::InvalidJson));
    assert!(matches!(
        report_samples(&registry, "test_sensor", br#"{"temperature": 1} trailing"#),
        ReportOutcome::InvalidJson
    ));
}

#[test]
fn report_numbers_keep_their_kind() {
    let registry = create_test_device_registry();
    let samples = readings(&registry, "test_sensor", br#"{"temperature": 21}"#);
    assert_eq!(samples[0].value, GaugeValue::Number(JsonNumber::PosInt(21)));
    let samples = readings(&registry, "test_sensor", br#"{"temperature": -4}"#);
    assert_eq!(samples[0].value, GaugeValue::Number(JsonNumber::NegInt(-4)));
    let samples = readings(&registry, "test_sensor", br#"{"temperature": 1e3}"#);
    assert_eq!(samples[0].value, GaugeValue::Number(JsonNumber::Float(1000f64.to_bits())));
}

#[test]
fn report_members_are_flattened_in_key_order() {
    // `a_b` given directly and `a` {`b`} both flatten to `a_b`; serde_json hands the members
    // over sorted by key, so `a` comes before `a_b` and the direct `a_b` wins.
    let mut registry = DeviceRegistry::new();
    registry.insert(DeviceInfo {
        device: test_device("s"),
        exposes: vec![flat("a_b", ExposeType::Numeric, None)],
    });
    let samples = readings(&registry, "s", br#"{"a_b": 1, "a": {"b": 2}}"#);
    assert_eq!(samples[0].value, GaugeValue::Number(JsonNumber::PosInt(1)));
    let samples = readings(&registry, "s", br#"{"a": {"b": 2}, "a_b": 1}"#);
    assert_eq!(samples[0].value, GaugeValue::Number(JsonNumber::PosInt(1)));
}

#[test]
fn binary_values_and_fallbacks() {
    let info = test_device_info();
    let state = &info.exposes[1];
    assert_eq!(convert_to_metric_value(&JsonValue::String("ON".to_string()), state), Some(GaugeValue::One));
    assert_eq!(convert_to_metric_value(&JsonValue::String("OFF".to_string()), state), Some(GaugeValue::Zero));
    assert_eq!(convert_to_metric_value(&JsonValue::Bool(true), state), Some(GaugeValue::One));
    assert_eq!(convert_to_metric_value(&JsonValue::Bool(false), state), Some(GaugeValue::Zero));
    assert_eq!(convert_to_metric_value(&JsonValue::String("TOGGLE".to_string()), state), None);
    assert_eq!(convert_to_metric_value(&float(1.0), state), None);
}

#[test]
fn numeric_values_and_unsupported_kinds() {
    let temperature = flat("temperature", ExposeType::Numeric, None);
    assert_eq!(
        convert_to_metric_value(&JsonValue::Number(JsonNumber::NegInt(-4)), &temperature),
        Some(GaugeValue::Number(JsonNumber::NegInt(-4)))
    );
    assert_eq!(convert_to_metric_value(&JsonValue::String("20".to_string()), &temperature), None);
    let mode = flat("mode", ExposeType::Enum, None);
    assert_eq!(convert_to_metric_value(&JsonValue::String("auto".to_string()), &mode), None);
    let text = flat("action", ExposeType::Text, None);
    assert_eq!(convert_to_metric_value(&JsonValue::String("single".to_string()), &text), None);
}

#[test]
fn skipped_and_missing_properties_yield_nothing() {
    let info = DeviceInfo {
        device: test_device("plug"),
        exposes: vec![
            flat("power_on_behavior", ExposeType::Numeric, None),
            flat("power", ExposeType::Numeric, Some("W")),
            flat("energy", ExposeType::Numeric, Some("kWh")),
        ],
    };
    let payload = object(vec![
        ("power_on_behavior", JsonValue::Number(JsonNumber::PosInt(1))),
        ("power", JsonValue::Number(JsonNumber::PosInt(12))),
    ]);
    let samples = payload_samples("plug", &info, &payload);
    assert_eq!(samples.len(), 1);
    assert_eq!(samples[0].labels[6], "power");
    assert_eq!(samples[0].labels[7], "W");
    assert_eq!(samples[0].value, GaugeValue::Number(JsonNumber::PosInt(12)));
}

#[test]
fn readings_of_a_registered_device_only() {
    let mut device = test_device("sensor");
    device.definition = Some(DeviceDefinition {
        description: None,
        model: None,
        vendor: None,
        exposes: Some(vec![Expose {
            expose_type: ExposeType::Numeric,
            property: Some("temperature".to_string()),
            name: None,
            unit: Some("°C".to_string()),
            access: Some(1),
            category: None,
            description: None,
            features: None,
            value_on: None,
            value_off: None,
            value_min_bits: None,
            value_max_bits: None,
            value_step_bits: None,
            values: None,
        }]),
    });
    let mut registry = DeviceRegistry::new();
    registry.rebuild(vec![device]);
    let payload = object(vec![("temperature", float(21.0))]);
    let samples = process_payload(&registry, "sensor", &payload);
    assert_eq!(samples.len(), 1);
    assert_eq!(samples[0].labels[0], "sensor");
    assert!(process_payload(&registry, "other", &payload).is_empty());
}

#[test]
fn label_names_in_order() {
    assert_eq!(
        metric_label_names(),
        vec![
            "friendly_name",
            "manufacturer",
            "ieee_address",
            "network_address",
            "model_id",
            "type",
            "property",
            "unit"
        ]
    );
}

#[test]
fn absent_device_details_give_empty_labels() {
    let mut device = test_device("bare");
    device.manufacturer = None;
    device.model_id = None;
    device.network_address = None;
    device.device_type = None;
    let info = DeviceInfo { device, exposes: vec![flat("linkquality", ExposeType::Numeric, Some("lqi"))] };
    let payload = object(vec![("linkquality", JsonValue::Number(JsonNumber::PosInt(120)))]);
    let samples = payload_samples("bare", &info, &payload);
    assert_eq!(
        samples[0].labels,
        labels(&["bare", "", "0x00158d0001234567", "", "", "", "linkquality", "lqi"])
    );
}
