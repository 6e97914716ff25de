use i8042::codec::{ControllerConfigurationByte, DeviceCommands};
use i8042::error::DriverError;
use i8042::mock::MockPort;
use i8042::port::{read_data_blocking, write_data_blocking, PortByte, RETRY_BUDGET};
use i8042::protocol::{
    classify_reply, get_controller_configuration_byte, get_dev_type, reset_dev, send_to_device,
    set_controller_configuration_byte, test_controller, test_port1, test_port2, DeviceType,
};

#[test]
fn blocking_read_returns_first_available_byte() {
    let mut mock = MockPort::new(vec![None, None, Some(0x42)]);
    assert_eq!(read_data_blocking(&mut mock), Ok(0x42));
    assert_eq!(mock.next, 3);
}

#[test]
fn blocking_read_times_out_after_exact_budget() {
    // A port that never reports a byte: the read gives up with a timeout
    // after exactly the retry budget, not looping on.
    let mut mock = MockPort::new(vec![None; RETRY_BUDGET + 1]);
    assert_eq!(read_data_blocking(&mut mock), Err(DriverError::PortTimeout));
    assert_eq!(mock.next, RETRY_BUDGET);
}

#[test]
fn blocking_write_times_out_when_never_accepted() {
    // A controller whose input buffer never clears: the write gives up
    // with a timeout after exactly the retry budget of refused offers,
    // and nothing is ever written.
    let mut mock = MockPort::new(vec![]);
    mock.accept_writes = false;
    assert_eq!(
        write_data_blocking(&mut mock, 0x12),
        Err(DriverError::PortTimeout)
    );
    assert!(mock.log.is_empty());
    assert_eq!(mock.offers, RETRY_BUDGET);
}

#[test]
fn blocking_write_offers_once_when_accepted() {
    let mut mock = MockPort::new(vec![]);
    assert_eq!(write_data_blocking(&mut mock, 0x12), Ok(()));
    assert_eq!(mock.log, vec![PortByte::Data(0x12)]);
    assert_eq!(mock.offers, 1);
}

#[test]
fn get_configuration_issues_read_command() {
    let mut mock = MockPort::new(vec![Some(0x65)]);
    let cfg = get_controller_configuration_byte(&mut mock).unwrap();
    assert_eq!(cfg.0, 0x65);
    assert_eq!(mock.log, vec![PortByte::Command(0x20)]);
}

#[test]
fn set_configuration_writes_command_then_byte() {
    let mut mock = MockPort::new(vec![]);
    set_controller_configuration_byte(&mut mock, ControllerConfigurationByte(0x34)).unwrap();
    assert_eq!(
        mock.log,
        vec![PortByte::Command(0x60), PortByte::Data(0x34)]
    );
}

#[test]
fn self_test_pass_code() {
    let mut mock = MockPort::new(vec![Some(0x55)]);
    assert_eq!(test_controller(&mut mock), Ok(()));
    assert_eq!(mock.log, vec![PortByte::Command(0xAA)]);
}

#[test]
fn self_test_fail_code() {
    let mut mock = MockPort::new(vec![Some(0xFC)]);
    assert_eq!(test_controller(&mut mock), Err(DriverError::SelfTestFailed));
}

#[test]
fn self_test_unrecognized_code_fails() {
    let mut mock = MockPort::new(vec![Some(0x77)]);
    assert_eq!(test_controller(&mut mock), Err(DriverError::SelfTestFailed));
}

#[test]
fn port_test_pass_and_fault_codes() {
    let mut mock = MockPort::new(vec![Some(0x00)]);
    assert_eq!(test_port1(&mut mock), Ok(()));
    assert_eq!(mock.log, vec![PortByte::Command(0xAB)]);

    for code in [0x01u8, 0x02, 0x03, 0x04, 0x77].iter() {
        let mut mock = MockPort::new(vec![Some(*code)]);
        assert_eq!(
            test_port1(&mut mock),
            Err(DriverError::PortTestFailed(1, *code))
        );
    }

    let mut mock = MockPort::new(vec![Some(0x02)]);
    assert_eq!(
        test_port2(&mut mock),
        Err(DriverError::PortTestFailed(2, 0x02))
    );
    assert_eq!(mock.log, vec![PortByte::Command(0xA9)]);
}

#[test]
fn send_to_device_forwards_to_second_channel() {
    let mut mock = MockPort::new(vec![]);
    send_to_device(&mut mock, false, DeviceCommands::DisableScanning).unwrap();
    assert_eq!(mock.log, vec![PortByte::Data(0xF5)]);

    let mut mock = MockPort::new(vec![]);
    send_to_device(&mut mock, true, DeviceCommands::Identify).unwrap();
    assert_eq!(
        mock.log,
        vec![PortByte::Command(0xD4), PortByte::Data(0xF2)]
    );
}

#[test]
fn reset_accepts_ack_then_pass() {
    let mut mock = MockPort::new(vec![Some(0xFA), Some(0xAA)]);
    assert_eq!(reset_dev(&mut mock, false), Ok(()));
    assert_eq!(mock.log, vec![PortByte::Data(0xFF)]);
}

#[test]
fn reset_rejects_any_other_pair() {
    let mut mock = MockPort::new(vec![Some(0xFA), Some(0xFC)]);
    assert_eq!(reset_dev(&mut mock, false), Err(DriverError::ResetFailed(1)));

    let mut mock = MockPort::new(vec![Some(0xAA), Some(0xFA)]);
    assert_eq!(reset_dev(&mut mock, false), Err(DriverError::ResetFailed(1)));

    let mut mock = MockPort::new(vec![Some(0x00), Some(0x00)]);
    assert_eq!(reset_dev(&mut mock, true), Err(DriverError::ResetFailed(2)));
    assert_eq!(
        mock.log,
        vec![PortByte::Command(0xD4), PortByte::Data(0xFF)]
    );
}

#[test]
fn classify_literal_replies() {
    assert_eq!(classify_reply(0x00, None), DeviceType::StandardMouse);
    assert_eq!(classify_reply(0xAB, Some(0x83)), DeviceType::StandardKeyboard);
    assert_eq!(
        classify_reply(0x3B, None),
        DeviceType::Unknown(Some(0x3B), None)
    );
    assert_eq!(
        classify_reply(0x00, Some(0x12)),
        DeviceType::Unknown(Some(0x00), Some(0x12))
    );
}

#[test]
fn identify_mouse_reply() {
    // ack, ack, 0x00, no second byte, enable ack.
    let mut mock = MockPort::new(vec![Some(0xFA), Some(0xFA), Some(0x00), None, Some(0xFA)]);
    assert_eq!(get_dev_type(&mut mock, false), Ok(DeviceType::StandardMouse));
    assert_eq!(
        mock.log,
        vec![
            PortByte::Data(0xF5),
            PortByte::Data(0xF2),
            PortByte::Data(0xF4)
        ]
    );
}

#[test]
fn identify_keyboard_reply() {
    let mut mock = MockPort::new(vec![
        Some(0xFA),
        Some(0xFA),
        Some(0xAB),
        Some(0x83),
        Some(0xFA),
    ]);
    assert_eq!(
        get_dev_type(&mut mock, false),
        Ok(DeviceType::StandardKeyboard)
    );
}

#[test]
fn identify_unknown_reply_keeps_raw_byte() {
    let mut mock = MockPort::new(vec![Some(0xFA), Some(0xFA), Some(0x3B), None, Some(0xFA)]);
    assert_eq!(
        get_dev_type(&mut mock, false),
        Ok(DeviceType::Unknown(Some(0x3B), None))
    );
}

#[test]
fn identify_retries_disable_scanning_once() {
    // The first pause request is answered wrongly; the retry succeeds and
    // identification goes on to find a keyboard.
    let mut mock = MockPort::new(vec![
        Some(0x00),
        Some(0xFA),
        Some(0xFA),
        Some(0xAB),
        Some(0x83),
        Some(0xFA),
    ]);
    assert_eq!(
        get_dev_type(&mut mock, false),
        Ok(DeviceType::StandardKeyboard)
    );
    assert_eq!(
        mock.log,
        vec![
            PortByte::Data(0xF5),
            PortByte::Data(0xF5),
            PortByte::Data(0xF2),
            PortByte::Data(0xF4)
        ]
    );
}

#[test]
fn identify_reports_no_device_when_never_acknowledged() {
    let mut mock = MockPort::new(vec![Some(0x01), Some(0x02)]);
    assert_eq!(
        get_dev_type(&mut mock, false),
        Ok(DeviceType::Unknown(None, None))
    );
    assert_eq!(mock.log, vec![PortByte::Data(0xF5), PortByte::Data(0xF5)]);
}

#[test]
fn identify_reports_no_device_when_identify_unacknowledged() {
    let mut mock = MockPort::new(vec![Some(0xFA), Some(0x12)]);
    assert_eq!(
        get_dev_type(&mut mock, false),
        Ok(DeviceType::Unknown(None, None))
    );
    assert_eq!(mock.log, vec![PortByte::Data(0xF5), PortByte::Data(0xF2)]);
}

#[test]
fn identify_on_second_channel_forwards_every_byte() {
    let mut mock = MockPort::new(vec![Some(0xFA), Some(0xFA), Some(0x00), None, Some(0xFA)]);
    assert_eq!(get_dev_type(&mut mock, true), Ok(DeviceType::StandardMouse));
    assert_eq!(
        mock.log,
        vec![
            PortByte::Command(0xD4),
            PortByte::Data(0xF5),
            PortByte::Command(0xD4),
            PortByte::Data(0xF2),
            PortByte::Command(0xD4),
            PortByte::Data(0xF4)
        ]
    );
}

#[test]
fn identify_times_out_on_silent_device() {
    let mut mock = MockPort::new(vec![]);
    assert_eq!(
        get_dev_type(&mut mock, false),
        Err(DriverError::PortTimeout)
    );
}
