use zmqtt2prom::device::{Device, DeviceDefinition, DeviceInfo, DeviceRegistry};
use zmqtt2prom::expose::{Expose, ExposeType};

fn create_test_device(supported: bool, disabled: bool, interview_completed: bool) -> Device {
    Device {
        disabled: Some(disabled),
        friendly_name: "test_device".to_string(),
        ieee_address: "0x00158d0001234567".to_string(),
        interview_completed: Some(interview_completed),
        manufacturer: Some("Test".to_string()),
        model_id: Some("TEST-001".to_string()),
        network_address: Some(12345),
        supported: Some(supported),
        device_type: Some("EndDevice".to_string()),
        definition: None,
    }
}

fn numeric_expose(property: &str, unit: Option<&str>) -> Expose {
    Expose {
        expose_type: ExposeType::Numeric,
        property: Some(property.to_string()),
        name: None,
        unit: unit.map(|u| u.to_string()),
        access: Some(1),
        category: None,
        description: None,
        features: None,
        value_on: None,
        value_off: None,
        value_min_bits: None,
        value_max_bits: None,
        value_step_bits: None,
        values: None,
    }
}

fn named_device(name: &str, eligible: bool, exposes: Vec<Expose>) -> Device {
    let mut d = create_test_device(eligible, false, true);
    d.friendly_name = name.to_string();
    d.definition = Some(DeviceDefinition {
        description: None,
        model: None,
        vendor: None,
        exposes: Some(exposes),
    });
    d
}

#[test]
fn test_device_is_eligible() {
    let eligible = create_test_device(true, false, true);
    assert!(eligible.is_eligible());

    let not_supported = create_test_device(false, false, true);
    assert!(!not_supported.is_eligible());

    let disabled = create_test_device(true, true, true);
    assert!(!disabled.is_eligible());

    let no_interview = create_test_device(true, false, false);
    assert!(!no_interview.is_eligible());
}

#[test]
fn absent_flags_make_a_device_ineligible() {
    let mut d = create_test_device(true, false, true);
    d.supported = None;
    assert!(!d.is_eligible());
    let mut d = create_test_device(true, false, true);
    d.disabled = None;
    assert!(d.is_eligible());
    let mut d = create_test_device(true, false, true);
    d.interview_completed = None;
    assert!(!d.is_eligible());
}

#[test]
fn test_mqtt_topic() {
    let device = Device {
        disabled: None,
        friendly_name: "living_room_sensor".to_string(),
        ieee_address: "0x00158d0001234567".to_string(),
        interview_completed: None,
        manufacturer: None,
        model_id: None,
        network_address: None,
        supported: None,
        device_type: None,
        definition: None,
    };

    assert_eq!(device.mqtt_topic(), "zigbee2mqtt/living_room_sensor");
}

#[test]
fn device_fields_and_exposes() {
    let device = Device {
        disabled: Some(false),
        friendly_name: "test_sensor".to_string(),
        ieee_address: "0x00158d0001234567".to_string(),
        interview_completed: Some(true),
        manufacturer: Some("LUMI".to_string()),
        model_id: Some("lumi.sensor_ht.agl02".to_string()),
        network_address: Some(54321),
        supported: Some(true),
        device_type: Some("EndDevice".to_string()),
        definition: Some(DeviceDefinition {
            description: Some("Temperature and humidity sensor".to_string()),
            model: Some("WSDCGQ12LM".to_string()),
            vendor: Some("Aqara".to_string()),
            exposes: Some(vec![numeric_expose("temperature", Some("°C"))]),
        }),
    };
    assert_eq!(device.friendly_name, "test_sensor");
    assert_eq!(device.ieee_address, "0x00158d0001234567");
    assert!(device.is_eligible());

    let exposes = device.flattened_exposes();
    assert_eq!(exposes.len(), 1);
    assert_eq!(exposes[0].property, "temperature");
}

#[test]
fn device_without_definition_has_no_exposes() {
    let device = create_test_device(true, false, true);
    assert!(device.flattened_exposes().is_empty());
    let info = DeviceInfo::new(device);
    assert!(info.exposes.is_empty());
    assert_eq!(info.device.friendly_name, "test_device");
}

#[test]
fn rebuild_registers_eligible_devices_and_lists_their_topics() {
    let mut registry = DeviceRegistry::new();
    let topics = registry.rebuild(vec![
        named_device("kitchen", true, vec![numeric_expose("temperature", None)]),
        named_device("hall", false, vec![]),
        named_device("bedroom", true, vec![]),
        named_device("kitchen", true, vec![numeric_expose("humidity", Some("%"))]),
    ]);
    assert_eq!(topics, vec!["zigbee2mqtt/kitchen", "zigbee2mqtt/bedroom", "zigbee2mqtt/kitchen"]);
    assert!(registry.get("hall").is_none());
    assert!(registry.get("bedroom").is_some());
    let kitchen = registry.get("kitchen").unwrap();
    assert_eq!(kitchen.exposes.len(), 1);
    assert_eq!(kitchen.exposes[0].property, "humidity");
}

#[test]
fn rebuild_replaces_earlier_devices() {
    let mut registry = DeviceRegistry::new();
    registry.rebuild(vec![named_device("old", true, vec![])]);
    let topics = registry.rebuild(vec![named_device("new", true, vec![])]);
    assert_eq!(topics, vec!["zigbee2mqtt/new"]);
    assert!(registry.get("old").is_none());
    assert!(registry.get("new").is_some());
}

#[test]
fn insert_replaces_a_device_of_the_same_name() {
    let mut registry = DeviceRegistry::new();
    registry.insert(DeviceInfo::new(named_device("a", true, vec![])));
    registry.insert(DeviceInfo::new(named_device("a", true, vec![numeric_expose("power", Some("W"))])));
    assert_eq!(registry.get("a").unwrap().exposes.len(), 1);
}
