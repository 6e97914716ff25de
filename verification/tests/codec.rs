use i8042::codec::{
    ControllerCommands, ControllerConfigurationByte, DeviceCommands, StatusRegister,
};
use i8042::protocol::DeviceType;

fn config_bit(value: u8, b: u8) -> bool {
    (value >> b) & 1 == 1
}

#[test]
fn status_register_flags() {
    let s = StatusRegister(0b0100_0101);
    assert!(s.output_buffer_is_full());
    assert!(!s.input_buffer_is_full());
    assert!(s.system_flag());
    assert!(!s.is_command());
    assert!(s.is_timeout_error());
    assert!(!s.is_parity_error());

    let s = StatusRegister(0b1000_1010);
    assert!(!s.output_buffer_is_full());
    assert!(s.input_buffer_is_full());
    assert!(!s.system_flag());
    assert!(s.is_command());
    assert!(!s.is_timeout_error());
    assert!(s.is_parity_error());
}

#[test]
fn config_getters_read_their_bits() {
    let c = ControllerConfigurationByte(0b0111_0101);
    assert!(c.is_enable_interrupt1());
    assert!(!c.is_enable_interrupt2());
    assert!(c.system_flag());
    assert!(c.is_disabled_clock1());
    assert!(c.is_disabled_clock2());
    assert!(c.is_enabled_translation1());
}

#[test]
fn config_set_bit_round_trip_preserves_other_bits() {
    // For every starting byte pattern in a small sample, every settable
    // bit, and both values: the set bit reads back as set, and all other
    // bits keep the corresponding bit of the starting byte.
    let samples: [u8; 6] = [0x00, 0xFF, 0x41, 0xAA, 0x55, 0x3C];
    let bits: [u8; 6] = [0, 1, 2, 4, 5, 6];
    for &x in samples.iter() {
        for &b in bits.iter() {
            for &v in [false, true].iter() {
                let mut c = ControllerConfigurationByte(x);
                match b {
                    0 => c.set_is_enable_interrupt1(v),
                    1 => c.set_is_enable_interrupt2(v),
                    2 => c.set_system_flag(v),
                    4 => c.set_is_disabled_clock1(v),
                    5 => c.set_is_disabled_clock2(v),
                    _ => c.set_is_enabled_translation1(v),
                }
                assert_eq!(config_bit(c.0, b), v);
                for other in 0..8u8 {
                    if other != b {
                        assert_eq!(config_bit(c.0, other), config_bit(x, other));
                    }
                }
            }
        }
    }
}

#[test]
fn config_setter_getter_pairs_are_inverses() {
    let mut c = ControllerConfigurationByte(0b1111_1111);
    c.set_is_enable_interrupt1(false);
    assert!(!c.is_enable_interrupt1());
    c.set_is_enable_interrupt2(false);
    assert!(!c.is_enable_interrupt2());
    c.set_is_disabled_clock1(true);
    assert!(c.is_disabled_clock1());
    c.set_is_disabled_clock2(true);
    assert!(c.is_disabled_clock2());
    c.set_is_enabled_translation1(false);
    assert!(!c.is_enabled_translation1());
    c.set_system_flag(true);
    assert!(c.system_flag());
    // Bits 3 and 7 are reserved and were never touched.
    assert!(config_bit(c.0, 3));
    assert!(config_bit(c.0, 7));
}

#[test]
fn controller_command_bytes() {
    assert_eq!(ControllerCommands::ReadByte0.encode(), 0x20);
    assert_eq!(ControllerCommands::WriteByte0.encode(), 0x60);
    assert_eq!(ControllerCommands::DisablePort2.encode(), 0xA7);
    assert_eq!(ControllerCommands::EnablePort2.encode(), 0xA8);
    assert_eq!(ControllerCommands::TestPort2.encode(), 0xA9);
    assert_eq!(ControllerCommands::TestController.encode(), 0xAA);
    assert_eq!(ControllerCommands::TestPort1.encode(), 0xAB);
    assert_eq!(ControllerCommands::DisablePort1.encode(), 0xAD);
    assert_eq!(ControllerCommands::EnablePort1.encode(), 0xAE);
    assert_eq!(ControllerCommands::WriteByteInputPort2.encode(), 0xD4);
}

#[test]
fn device_command_bytes() {
    assert_eq!(DeviceCommands::Identify.encode(), 0xF2);
    assert_eq!(DeviceCommands::EnableScanning.encode(), 0xF4);
    assert_eq!(DeviceCommands::DisableScanning.encode(), 0xF5);
    assert_eq!(DeviceCommands::Reset.encode(), 0xFF);
}

#[test]
fn device_type_log_lines() {
    assert_eq!(
        DeviceType::StandardMouse.log(),
        "i8042: Found standard PS/2 mouse"
    );
    assert_eq!(
        DeviceType::StandardKeyboard.log(),
        "i8042: Found standard PS/2 keyboard"
    );
    assert_eq!(
        DeviceType::Unknown(Some(0x3B), None).log(),
        "i8042: Found unknown device"
    );
}

#[test]
fn config_default_is_all_clear() {
    let c = ControllerConfigurationByte::default();
    assert_eq!(c.0, 0);
}
