use movement::connection::ConnectionSettings;
use movement::dynamixel::DynamixelID;
use movement::sensor::virtual_sensor::{VirtualDataType, VirtualSensor};

#[test]
fn dynamixel_id_resolves_to_wire_byte() {
    assert_eq!(DynamixelID::Broadcast.to_byte(), 0xFE);
    assert_eq!(DynamixelID::ID(5).to_byte(), 5);
    assert_eq!(DynamixelID::ID(0).to_byte(), 0);
}

#[test]
fn connection_settings_default() {
    let settings = ConnectionSettings::default();
    assert_eq!(settings.baudrate, Some(1_000_000));
    assert_eq!(settings.path.as_deref(), Some("/dev/ttyACM1"));
    assert_eq!(settings.timeout_ms, Some(5));
}

#[test]
fn virtual_sensor_keeps_its_source() {
    let sensor = VirtualSensor::new(VirtualDataType::Constant(42));
    assert!(matches!(sensor.datatype, VirtualDataType::Constant(42)));
}
