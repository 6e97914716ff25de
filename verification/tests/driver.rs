use i8042::driver::{Driver, I8042};
use i8042::error::DriverError;
use i8042::mock::MockPort;
use i8042::port::PortByte;
use i8042::protocol::DeviceType;

fn cmd(b: u8) -> PortByte {
    PortByte::Command(b)
}

fn data(b: u8) -> PortByte {
    PortByte::Data(b)
}

#[test]
fn probe_accepts_present_controller() {
    assert_eq!(I8042::probe(true), Ok(()));
}

#[test]
fn probe_declines_absent_controller() {
    assert_eq!(I8042::probe(false), Err(DriverError::ControllerAbsent));
}

#[test]
fn probe_through_driver_trait() {
    assert_eq!(<I8042 as Driver>::probe(true), Ok(()));
    assert_eq!(
        <I8042 as Driver>::probe(false),
        Err(DriverError::ControllerAbsent)
    );
}

#[test]
fn init_single_channel_command_order() {
    // One channel, a keyboard attached: the full successful bring-up
    // issues exactly the documented commands, in the documented order,
    // with no channel-2 step.
    let mut dev = I8042::default();
    let mut mock = MockPort::new(vec![
        None,       // drain: buffer already empty
        Some(0x04), // configuration byte, system flag set
        Some(0x55), // self test passes
        Some(0x24), // probe: channel-2 clock still disabled
        Some(0x00), // channel-1 interface test passes
        Some(0xFA), // reset: acknowledge
        Some(0xAA), // reset: self test passed
        Some(0xFA), // disable-scanning acknowledge
        Some(0xFA), // identify acknowledge
        Some(0xAB), // identify reply, first byte
        Some(0x83), // identify reply, second byte
        Some(0xFA), // enable-scanning acknowledge
    ]);
    assert_eq!(dev.init(&mut mock), Ok(()));
    assert_eq!(
        mock.log,
        vec![
            cmd(0xAD),
            cmd(0xA7),
            cmd(0x20),
            cmd(0x60),
            data(0x34),
            cmd(0xAA),
            cmd(0x60),
            data(0x34),
            cmd(0xA8),
            cmd(0x20),
            cmd(0xAB),
            cmd(0xAE),
            data(0xFF),
            data(0xF5),
            data(0xF2),
            data(0xF4),
        ]
    );
    assert!(!dev.is_exists_port2);
    assert_eq!(dev.port1, DeviceType::StandardKeyboard);
    assert_eq!(dev.port2, DeviceType::Unknown(None, None));
    assert_eq!(dev.config.0, 0x34);
}

#[test]
fn init_dual_channel_command_order() {
    // The probe reads the channel-2 clock running, so every conditional
    // step appears: probe cleanup, second interface test, second enable,
    // forwarded reset and forwarded identify.
    let mut dev = I8042::default();
    let mut mock = MockPort::new(vec![
        None,       // drain
        Some(0x04), // configuration byte
        Some(0x55), // self test
        Some(0x04), // probe: channel-2 clock enabled
        Some(0x00), // channel-1 interface test
        Some(0x00), // channel-2 interface test
        Some(0xFA), // reset channel 1
        Some(0xAA),
        Some(0xFA), // reset channel 2
        Some(0xAA),
        Some(0xFA), // identify channel 1: a mouse
        Some(0xFA),
        Some(0x00),
        None,
        Some(0xFA),
        Some(0xFA), // identify channel 2: a keyboard
        Some(0xFA),
        Some(0xAB),
        Some(0x83),
        Some(0xFA),
    ]);
    assert_eq!(dev.init(&mut mock), Ok(()));
    assert_eq!(
        mock.log,
        vec![
            cmd(0xAD),
            cmd(0xA7),
            cmd(0x20),
            cmd(0x60),
            data(0x34),
            cmd(0xAA),
            cmd(0x60),
            data(0x34),
            cmd(0xA8),
            cmd(0x20),
            cmd(0xA7),
            cmd(0x60),
            data(0x34),
            cmd(0xAB),
            cmd(0xA9),
            cmd(0xAE),
            cmd(0xA8),
            data(0xFF),
            cmd(0xD4),
            data(0xFF),
            data(0xF5),
            data(0xF2),
            data(0xF4),
            cmd(0xD4),
            data(0xF5),
            cmd(0xD4),
            data(0xF2),
            cmd(0xD4),
            data(0xF4),
        ]
    );
    assert!(dev.is_exists_port2);
    assert_eq!(dev.port1, DeviceType::StandardMouse);
    assert_eq!(dev.port2, DeviceType::StandardKeyboard);
}

#[test]
fn init_drains_stale_bytes_first() {
    let mut dev = I8042::default();
    let mut mock = MockPort::new(vec![
        Some(0xEE), // stale bytes flushed by the drain loop
        Some(0xDD),
        None,
        Some(0x04),
        Some(0x55),
        Some(0x24),
        Some(0x00),
        Some(0xFA),
        Some(0xAA),
        Some(0xFA),
        Some(0xFA),
        Some(0xAB),
        Some(0x83),
        Some(0xFA),
    ]);
    assert_eq!(dev.init(&mut mock), Ok(()));
    assert_eq!(dev.port1, DeviceType::StandardKeyboard);
    assert_eq!(mock.log[0], cmd(0xAD));
    assert_eq!(mock.log[1], cmd(0xA7));
    assert_eq!(mock.log[2], cmd(0x20));
}

#[test]
fn init_gives_up_on_flooded_output_buffer() {
    let mut dev = I8042::default();
    let mut mock = MockPort::new(vec![Some(0xEE); 12]);
    assert_eq!(dev.init(&mut mock), Err(DriverError::PortTimeout));
    assert_eq!(mock.log, vec![cmd(0xAD), cmd(0xA7)]);
}

#[test]
fn init_halts_when_system_flag_clear() {
    let mut dev = I8042::default();
    let mut mock = MockPort::new(vec![None, Some(0x00)]);
    assert_eq!(dev.init(&mut mock), Err(DriverError::PostNotPassed));
    assert_eq!(mock.log, vec![cmd(0xAD), cmd(0xA7), cmd(0x20)]);
    assert_eq!(dev.port1, DeviceType::Unknown(None, None));
    assert_eq!(dev.port2, DeviceType::Unknown(None, None));
}

#[test]
fn init_self_test_failure_is_terminal() {
    // The controller answers the self test with 0xFC: initialization
    // halts before any interface test and classifies no channel.
    let mut dev = I8042::default();
    let mut mock = MockPort::new(vec![None, Some(0x04), Some(0xFC)]);
    assert_eq!(dev.init(&mut mock), Err(DriverError::SelfTestFailed));
    assert_eq!(
        mock.log,
        vec![
            cmd(0xAD),
            cmd(0xA7),
            cmd(0x20),
            cmd(0x60),
            data(0x34),
            cmd(0xAA),
        ]
    );
    assert!(!mock.log.contains(&cmd(0xAB)));
    assert!(!dev.is_exists_port2);
    assert_eq!(dev.port1, DeviceType::Unknown(None, None));
    assert_eq!(dev.port2, DeviceType::Unknown(None, None));
}

#[test]
fn init_detects_second_channel_from_probe_bit() {
    // Clock-disabled bit clear after the enable: a second channel exists
    // and the probe's side effects are undone.
    let mut dev = I8042::default();
    let mut mock = MockPort::new(vec![
        None,
        Some(0x04),
        Some(0x55),
        Some(0x04), // bit 5 clear
        Some(0x00),
        Some(0x00),
        Some(0xFA),
        Some(0xAA),
        Some(0xFA),
        Some(0xAA),
        Some(0xFA),
        Some(0xFA),
        Some(0x00),
        None,
        Some(0xFA),
        Some(0xFA),
        Some(0xFA),
        Some(0x00),
        None,
        Some(0xFA),
    ]);
    assert_eq!(dev.init(&mut mock), Ok(()));
    assert!(dev.is_exists_port2);
}

#[test]
fn init_no_second_channel_issues_no_channel2_operations() {
    // Clock-disabled bit still set after the enable: no second channel,
    // and nothing is forwarded to channel 2 afterwards.
    let mut dev = I8042::default();
    let mut mock = MockPort::new(vec![
        None,
        Some(0x04),
        Some(0x55),
        Some(0x24), // bit 5 set
        Some(0x00),
        Some(0xFA),
        Some(0xAA),
        Some(0xFA),
        Some(0xFA),
        Some(0x00),
        None,
        Some(0xFA),
    ]);
    assert_eq!(dev.init(&mut mock), Ok(()));
    assert!(!dev.is_exists_port2);
    // After the probe's enable (position 8), channel 2 is never enabled,
    // tested, or forwarded to again.
    for b in mock.log[9..].iter() {
        assert_ne!(*b, cmd(0xA8));
        assert_ne!(*b, cmd(0xA9));
        assert_ne!(*b, cmd(0xD4));
    }
}

#[test]
fn init_interface_test_failure_is_fatal() {
    let mut dev = I8042::default();
    let mut mock = MockPort::new(vec![None, Some(0x04), Some(0x55), Some(0x24), Some(0x03)]);
    assert_eq!(
        dev.init(&mut mock),
        Err(DriverError::PortTestFailed(1, 0x03))
    );
    assert_eq!(dev.port1, DeviceType::Unknown(None, None));
}

#[test]
fn init_second_channel_interface_test_failure_is_fatal() {
    let mut dev = I8042::default();
    let mut mock = MockPort::new(vec![
        None,
        Some(0x04),
        Some(0x55),
        Some(0x04),
        Some(0x00),
        Some(0x01),
    ]);
    assert_eq!(
        dev.init(&mut mock),
        Err(DriverError::PortTestFailed(2, 0x01))
    );
}

#[test]
fn init_reset_failure_is_fatal() {
    let mut dev = I8042::default();
    let mut mock = MockPort::new(vec![
        None,
        Some(0x04),
        Some(0x55),
        Some(0x24),
        Some(0x00),
        Some(0xFA),
        Some(0xFC),
    ]);
    assert_eq!(dev.init(&mut mock), Err(DriverError::ResetFailed(1)));
}

#[test]
fn init_times_out_on_unresponsive_controller() {
    let mut dev = I8042::default();
    let mut mock = MockPort::new(vec![]);
    assert_eq!(dev.init(&mut mock), Err(DriverError::PortTimeout));
    assert_eq!(mock.log, vec![cmd(0xAD), cmd(0xA7), cmd(0x20)]);
    assert_eq!(dev.port1, DeviceType::Unknown(None, None));
}

#[test]
fn end_to_end_probe_gates_and_single_channel_keyboard() {
    // Probe declines: initialization is never invoked and the state stays
    // untouched.
    let mut dev = I8042::default();
    if I8042::probe(false).is_ok() {
        unreachable!();
    }
    assert!(!dev.is_exists_port2);
    assert_eq!(dev.port1, DeviceType::Unknown(None, None));

    // Probe accepts: the full successful single-channel sequence runs and
    // the final state reports the keyboard on channel 1 only.
    assert!(I8042::probe(true).is_ok());
    let mut mock = MockPort::new(vec![
        None,
        Some(0x04),
        Some(0x55),
        Some(0x24),
        Some(0x00),
        Some(0xFA),
        Some(0xAA),
        Some(0xFA),
        Some(0xFA),
        Some(0xAB),
        Some(0x83),
        Some(0xFA),
    ]);
    assert_eq!(dev.init(&mut mock), Ok(()));
    assert!(!dev.is_exists_port2);
    assert_eq!(dev.port1, DeviceType::StandardKeyboard);
    assert_eq!(dev.port2, DeviceType::Unknown(None, None));
    dev.remove();
    assert_eq!(dev.port1, DeviceType::StandardKeyboard);
}

#[test]
fn init_through_driver_trait() {
    let mut dev = I8042::default();
    let mut mock = MockPort::new(vec![
        None,
        Some(0x04),
        Some(0x55),
        Some(0x24),
        Some(0x00),
        Some(0xFA),
        Some(0xAA),
        Some(0xFA),
        Some(0xFA),
        Some(0x00),
        None,
        Some(0xFA),
    ]);
    assert_eq!(Driver::init(&mut dev, &mut mock), Ok(()));
    assert_eq!(dev.port1, DeviceType::StandardMouse);
    Driver::remove(&mut dev);
}
