//! Command dispatcher and device protocol: every controller command with
//! its single response byte, and the multi-byte reset / identify
//! handshakes addressed to a channel.
//!
//! Each contract pins exactly which bytes the call appends to the write
//! history and which bytes it consumed from the read side, for every
//! possible answer of the controller.

use vstd::prelude::*;

use crate::codec::{ControllerCommands, ControllerConfigurationByte, DeviceCommands};
use crate::error::DriverError;
use crate::port::{
    accepted_last, appended, exhausted_reads, exhausted_writes, opt_seq, read_data_blocking,
    reads_of, timeout_evidence, write_data_blocking, PortAccess, PortByte,
};
use crate::port::{
    lemma_appended_chain, lemma_reads_of_concat, lemma_reads_of_single,
    lemma_timeout_evidence_chain,
};

verus! {

/// The number (1 or 2) of the channel a device operation addresses.
pub open spec fn channel_of(is_port2: bool) -> u8 {
    if is_port2 {
        2
    } else {
        1
    }
}

/// The forwarding prefix of a device write: nothing for channel 1, the
/// forward-to-second-port command for channel 2.
pub open spec fn fwd_prefix(is_port2: bool) -> Seq<PortByte> {
    if is_port2 {
        seq![PortByte::Command(0xD4)]
    } else {
        Seq::<PortByte>::empty()
    }
}

/// The full write sequence of one device command byte on a channel.
pub open spec fn dev_write(is_port2: bool, b: u8) -> Seq<PortByte> {
    fwd_prefix(is_port2) + seq![PortByte::Data(b)]
}

/// One history grew into another by exactly the stretch `x`.
pub proof fn lemma_extend_concat<T>(a: Seq<T>, x: Seq<T>)
    ensures
        a.is_prefix_of(a + x),
        appended(a, a + x) == x,
{
    assert(a =~= (a + x).subrange(0, a.len() as int));
    assert(appended(a, a + x) =~= x);
}

/// A history is its own prefix, having grown by nothing.
pub proof fn lemma_prefix_refl<T>(a: Seq<T>)
    ensures
        a.is_prefix_of(a),
        appended(a, a) == Seq::<T>::empty(),
{
    assert(a =~= a.subrange(0, a.len() as int));
    assert(appended(a, a) =~= Seq::<T>::empty());
}

/// Chains two growth steps of the read history and splits the delivered
/// bytes accordingly.
pub proof fn lemma_chain_reads(a: Seq<Option<u8>>, b: Seq<Option<u8>>, c: Seq<Option<u8>>)
    requires
        a.is_prefix_of(b),
        b.is_prefix_of(c),
    ensures
        a.is_prefix_of(c),
        reads_of(appended(a, c)) == reads_of(appended(a, b)) + reads_of(appended(b, c)),
{
    lemma_appended_chain(a, b, c);
    lemma_reads_of_concat(appended(a, b), appended(b, c));
}

/// Issues disable-channel-1; the command defines no response byte.
pub fn disable_port1<P: PortAccess>(port: &mut P)
    ensures
        final(port).tx() == old(port).tx().push(PortByte::Command(0xAD)),
        final(port).rx() == old(port).rx(),
        final(port).wx() == old(port).wx(),
{
    port.write_command(ControllerCommands::DisablePort1.encode());
}

/// Issues disable-channel-2; the command defines no response byte.
pub fn disable_port2<P: PortAccess>(port: &mut P)
    ensures
        final(port).tx() == old(port).tx().push(PortByte::Command(0xA7)),
        final(port).rx() == old(port).rx(),
        final(port).wx() == old(port).wx(),
{
    port.write_command(ControllerCommands::DisablePort2.encode());
}

/// Issues enable-channel-1; the command defines no response byte.
pub fn enable_port1<P: PortAccess>(port: &mut P)
    ensures
        final(port).tx() == old(port).tx().push(PortByte::Command(0xAE)),
        final(port).rx() == old(port).rx(),
        final(port).wx() == old(port).wx(),
{
    port.write_command(ControllerCommands::EnablePort1.encode());
}

/// Issues enable-channel-2; the command defines no response byte.
pub fn enable_port2<P: PortAccess>(port: &mut P)
    ensures
        final(port).tx() == old(port).tx().push(PortByte::Command(0xA8)),
        final(port).rx() == old(port).rx(),
        final(port).wx() == old(port).wx(),
{
    port.write_command(ControllerCommands::EnablePort2.encode());
}

/// Issues read-internal-RAM-byte-0 and reads the configuration byte it
/// answers with.
pub fn get_controller_configuration_byte<P: PortAccess>(port: &mut P) -> (r: Result<
    ControllerConfigurationByte,
    DriverError,
>)
    ensures
        old(port).tx().is_prefix_of(final(port).tx()),
        old(port).rx().is_prefix_of(final(port).rx()),
        final(port).wx() == old(port).wx(),
        appended(old(port).tx(), final(port).tx()) == seq![PortByte::Command(0x20)],
        ({
            let d = appended(old(port).rx(), final(port).rx());
            match r {
                Ok(cfg) => reads_of(d) == seq![cfg.0],
                Err(e) => e == DriverError::PortTimeout && exhausted_reads(d) && reads_of(d)
                    == Seq::<u8>::empty(),
            }
        }),
{
    let ghost t0 = port.tx();
    let ghost r0 = port.rx();
    port.write_command(ControllerCommands::ReadByte0.encode());
    proof {
        assert(appended(t0, port.tx()) =~= seq![PortByte::Command(0x20)]);
        assert(t0.is_prefix_of(port.tx()));
    }
    let got = read_data_blocking(port);
    proof {
        assert(appended(t0, port.tx()) =~= seq![PortByte::Command(0x20)]);
        assert(t0.is_prefix_of(port.tx()));
    }
    match got {
        Ok(v) => Ok(ControllerConfigurationByte(v)),
        Err(e) => Err(e),
    }
}

/// Issues write-internal-RAM-byte-0 and hands the raw configuration byte
/// to the data address.  On a timeout the command byte alone was written.
pub fn set_controller_configuration_byte<P: PortAccess>(
    port: &mut P,
    config: ControllerConfigurationByte,
) -> (r: Result<(), DriverError>)
    ensures
        final(port).rx() == old(port).rx(),
        old(port).wx().is_prefix_of(final(port).wx()),
        ({
            let w = appended(old(port).wx(), final(port).wx());
            match r {
                Ok(u) => accepted_last(w) && final(port).tx() == old(port).tx() + seq![
                    PortByte::Command(0x60),
                    PortByte::Data(config.0),
                ],
                Err(e) => e == DriverError::PortTimeout && exhausted_writes(w) && final(port).tx()
                    == old(port).tx().push(PortByte::Command(0x60)),
            }
        }),
{
    port.write_command(ControllerCommands::WriteByte0.encode());
    let r = write_data_blocking(port, config.0);
    proof {
        if r is Ok {
            assert(port.tx() =~= old(port).tx() + seq![
                PortByte::Command(0x60),
                PortByte::Data(config.0),
            ]);
        }
    }
    r
}

/// Runs the controller self test: 0x55 passes, anything else (notably
/// 0xFC) fails.
pub fn test_controller<P: PortAccess>(port: &mut P) -> (r: Result<(), DriverError>)
    ensures
        old(port).tx().is_prefix_of(final(port).tx()),
        old(port).rx().is_prefix_of(final(port).rx()),
        final(port).wx() == old(port).wx(),
        appended(old(port).tx(), final(port).tx()) == seq![PortByte::Command(0xAA)],
        ({
            let d = appended(old(port).rx(), final(port).rx());
            let reads = reads_of(d);
            match r {
                Ok(u) => reads == seq![0x55u8],
                Err(e) => (e == DriverError::SelfTestFailed && (exists|c: u8|
                    c != 0x55 && reads == seq![c])) || (e == DriverError::PortTimeout
                    && exhausted_reads(d) && reads == Seq::<u8>::empty()),
            }
        }),
{
    let ghost t0 = port.tx();
    port.write_command(ControllerCommands::TestController.encode());
    proof {
        assert(appended(t0, port.tx()) =~= seq![PortByte::Command(0xAA)]);
        assert(t0.is_prefix_of(port.tx()));
    }
    let got = read_data_blocking(port);
    proof {
        assert(appended(t0, port.tx()) =~= seq![PortByte::Command(0xAA)]);
        assert(t0.is_prefix_of(port.tx()));
    }
    match got {
        Ok(v) => {
            if v == 0x55 {
                Ok(())
            } else {
                proof {
                    let reads = reads_of(appended(old(port).rx(), port.rx()));
                    assert(v != 0x55 && reads == seq![v]);
                }
                Err(DriverError::SelfTestFailed)
            }
        },
        Err(e) => Err(e),
    }
}

/// Reads the single response byte of an already-issued interface test for
/// the given channel: 0x00 passes; 0x01 to 0x04 name a stuck line and any
/// other non-zero code is an unspecified fault, all reported as a failure
/// carrying the raw code.
pub fn test_port<P: PortAccess>(port: &mut P, channel: u8) -> (r: Result<(), DriverError>)
    ensures
        final(port).tx() == old(port).tx(),
        final(port).wx() == old(port).wx(),
        old(port).rx().is_prefix_of(final(port).rx()),
        ({
            let d = appended(old(port).rx(), final(port).rx());
            let reads = reads_of(d);
            match r {
                Ok(u) => reads == seq![0x00u8],
                Err(e) => (e == DriverError::PortTimeout && exhausted_reads(d) && reads == Seq::<
                    u8,
                >::empty()) || (exists|c: u8|
                    c != 0x00 && e == DriverError::PortTestFailed(channel, c) && reads == seq![c]),
            }
        }),
{
    let got = read_data_blocking(port);
    match got {
        Ok(v) => {
            if v == 0x00 {
                Ok(())
            } else {
                proof {
                    let reads = reads_of(appended(old(port).rx(), port.rx()));
                    assert(v != 0x00 && reads == seq![v]);
                }
                Err(DriverError::PortTestFailed(channel, v))
            }
        },
        Err(e) => Err(e),
    }
}

/// Issues the channel-1 interface test and interprets its response.
pub fn test_port1<P: PortAccess>(port: &mut P) -> (r: Result<(), DriverError>)
    ensures
        old(port).tx().is_prefix_of(final(port).tx()),
        old(port).rx().is_prefix_of(final(port).rx()),
        final(port).wx() == old(port).wx(),
        appended(old(port).tx(), final(port).tx()) == seq![PortByte::Command(0xAB)],
        ({
            let d = appended(old(port).rx(), final(port).rx());
            let reads = reads_of(d);
            match r {
                Ok(u) => reads == seq![0x00u8],
                Err(e) => (e == DriverError::PortTimeout && exhausted_reads(d) && reads == Seq::<
                    u8,
                >::empty()) || (exists|c: u8|
                    c != 0x00 && e == DriverError::PortTestFailed(1, c) && reads == seq![c]),
            }
        }),
{
    let ghost t0 = port.tx();
    port.write_command(ControllerCommands::TestPort1.encode());
    proof {
        assert(appended(t0, port.tx()) =~= seq![PortByte::Command(0xAB)]);
        assert(t0.is_prefix_of(port.tx()));
    }
    test_port(port, 1)
}

/// Issues the channel-2 interface test and interprets its response.
pub fn test_port2<P: PortAccess>(port: &mut P) -> (r: Result<(), DriverError>)
    ensures
        old(port).tx().is_prefix_of(final(port).tx()),
        old(port).rx().is_prefix_of(final(port).rx()),
        final(port).wx() == old(port).wx(),
        appended(old(port).tx(), final(port).tx()) == seq![PortByte::Command(0xA9)],
        ({
            let d = appended(old(port).rx(), final(port).rx());
            let reads = reads_of(d);
            match r {
                Ok(u) => reads == seq![0x00u8],
                Err(e) => (e == DriverError::PortTimeout && exhausted_reads(d) && reads == Seq::<
                    u8,
                >::empty()) || (exists|c: u8|
                    c != 0x00 && e == DriverError::PortTestFailed(2, c) && reads == seq![c]),
            }
        }),
{
    let ghost t0 = port.tx();
    port.write_command(ControllerCommands::TestPort2.encode());
    proof {
        assert(appended(t0, port.tx()) =~= seq![PortByte::Command(0xA9)]);
        assert(t0.is_prefix_of(port.tx()));
    }
    test_port(port, 2)
}

/// Sends one device command byte to a channel, forwarding through the
/// second input buffer when channel 2 is addressed.  On a timeout only the
/// forwarding prefix was written.
pub fn send_to_device<P: PortAccess>(port: &mut P, is_port2: bool, value: DeviceCommands) -> (r:
    Result<(), DriverError>)
    ensures
        final(port).rx() == old(port).rx(),
        old(port).wx().is_prefix_of(final(port).wx()),
        ({
            let w = appended(old(port).wx(), final(port).wx());
            match r {
                Ok(u) => accepted_last(w) && final(port).tx() == old(port).tx() + dev_write(
                    is_port2,
                    value.byte(),
                ),
                Err(e) => e == DriverError::PortTimeout && exhausted_writes(w) && final(port).tx()
                    == old(port).tx() + fwd_prefix(is_port2),
            }
        }),
{
    if is_port2 {
        port.write_command(ControllerCommands::WriteByteInputPort2.encode());
    }
    proof {
        assert(port.tx() =~= old(port).tx() + fwd_prefix(is_port2));
    }
    let r = write_data_blocking(port, value.encode());
    proof {
        if r is Ok {
            assert(port.tx() =~= old(port).tx() + dev_write(is_port2, value.byte()));
        }
    }
    r
}

/// What a channel was found to carry, decided once during identification
/// and never changed afterwards.
#[derive(Clone, Copy, Debug, PartialEq, Eq)]
pub enum DeviceType {
    /// A standard PS/2 mouse.
    StandardMouse,
    /// An MF2 keyboard.
    StandardKeyboard,
    /// No recognized device: either nothing answered, or the identify
    /// reply (carried here raw, for diagnosis) matched no known pattern.
    Unknown(Option<u8>, Option<u8>),
}

impl DeviceType {
    /// The description of this classification.
    pub open spec fn spec_description(self) -> Seq<char> {
        match self {
            DeviceType::StandardMouse => "i8042: Found standard PS/2 mouse"@,
            DeviceType::StandardKeyboard => "i8042: Found standard PS/2 keyboard"@,
            DeviceType::Unknown(_, _) => "i8042: Found unknown device"@,
        }
    }

    /// The line describing this classification, for the caller to log.
    pub fn log(&self) -> (r: &'static str)
        ensures
            r@ == self.spec_description(),
    {
        match self {
            DeviceType::StandardMouse => "i8042: Found standard PS/2 mouse",
            DeviceType::StandardKeyboard => "i8042: Found standard PS/2 keyboard",
            DeviceType::Unknown(_, _) => "i8042: Found unknown device",
        }
    }
}

/// The classification an identify reply decides: a lone 0x00 is a standard
/// mouse, 0xAB 0x83 is a standard keyboard, and any other reply is unknown
/// and kept raw.
pub open spec fn classify(first: u8, second: Option<u8>) -> DeviceType {
    if first == 0x00 && second is None {
        DeviceType::StandardMouse
    } else if first == 0xAB && second == Some(0x83u8) {
        DeviceType::StandardKeyboard
    } else {
        DeviceType::Unknown(Some(first), second)
    }
}

/// Classifies an identify reply.
pub fn classify_reply(first: u8, second: Option<u8>) -> (r: DeviceType)
    ensures
        r == classify(first, second),
{
    match second {
        Option::None => {
            if first == 0x00 {
                DeviceType::StandardMouse
            } else {
                DeviceType::Unknown(Some(first), None)
            }
        },
        Option::Some(s) => {
            if first == 0xAB && s == 0x83 {
                DeviceType::StandardKeyboard
            } else {
                DeviceType::Unknown(Some(first), Some(s))
            }
        },
    }
}

/// Resets the device on a channel and checks the two-byte answer: exactly
/// acknowledge (0xFA) then self-test-passed (0xAA), in that order.
pub fn reset_dev<P: PortAccess>(port: &mut P, is_port2: bool) -> (r: Result<(), DriverError>)
    ensures
        old(port).tx().is_prefix_of(final(port).tx()),
        old(port).rx().is_prefix_of(final(port).rx()),
        old(port).wx().is_prefix_of(final(port).wx()),
        ({
            let t = appended(old(port).tx(), final(port).tx());
            let reads = reads_of(appended(old(port).rx(), final(port).rx()));
            let w = appended(old(port).wx(), final(port).wx());
            match r {
                Ok(u) => t == dev_write(is_port2, 0xFF) && reads == seq![0xFAu8, 0xAAu8]
                    && accepted_last(w),
                Err(e) => (e == DriverError::ResetFailed(channel_of(is_port2)) && t == dev_write(
                    is_port2,
                    0xFF,
                ) && accepted_last(w) && (exists|a: u8, b: u8|
                    !(a == 0xFA && b == 0xAA) && reads == seq![a, b])) || (e
                    == DriverError::PortTimeout && timeout_evidence(
                    appended(old(port).rx(), final(port).rx()),
                    w,
                ) && ((t == fwd_prefix(is_port2) && reads == Seq::<u8>::empty()
                    && exhausted_writes(w)) || (t == dev_write(is_port2, 0xFF) && accepted_last(w)
                    && reads.len() <= 1))),
            }
        }),
{
    let ghost t0 = port.tx();
    let ghost r0 = port.rx();
    let ghost w0 = port.wx();
    match send_to_device(port, is_port2, DeviceCommands::Reset) {
        Ok(u) => {},
        Err(e) => {
            proof {
                lemma_extend_concat(t0, fwd_prefix(is_port2));
                lemma_prefix_refl(r0);
            }
            return Err(e);
        },
    }
    proof {
        lemma_extend_concat(t0, dev_write(is_port2, 0xFF));
        lemma_prefix_refl(r0);
    }
    let ghost w1 = port.wx();
    let first = match read_data_blocking(port) {
        Ok(v) => v,
        Err(e) => {
            proof {
                lemma_prefix_refl(w1);
                lemma_timeout_evidence_chain(r0, r0, port.rx(), w0, w1, port.wx());
            }
            return Err(e);
        },
    };
    let ghost r1 = port.rx();
    let second = match read_data_blocking(port) {
        Ok(v) => v,
        Err(e) => {
            proof {
                lemma_chain_reads(r0, r1, port.rx());
                assert(reads_of(appended(r0, port.rx())) =~= seq![first]);
                lemma_prefix_refl(w1);
                lemma_timeout_evidence_chain(r0, r1, port.rx(), w0, w1, port.wx());
            }
            return Err(e);
        },
    };
    proof {
        lemma_chain_reads(r0, r1, port.rx());
        assert(reads_of(appended(r0, port.rx())) =~= seq![first, second]);
    }
    if first == 0xFA && second == 0xAA {
        Ok(())
    } else {
        let ch: u8 = if is_port2 {
            2
        } else {
            1
        };
        Err(DriverError::ResetFailed(ch))
    }
}

/// Whether a possibly-retried acknowledge exchange is consistent: when a
/// retry happened, the first answer was not the acknowledge byte.
pub open spec fn ack_ok(retried: bool, x: u8) -> bool {
    retried ==> x != 0xFA
}

/// The bytes the disable-scanning phase writes: one device command, or two
/// when the first was not acknowledged and was retried.
pub open spec fn disable_tx(is_port2: bool, retried: bool) -> Seq<PortByte> {
    if retried {
        dev_write(is_port2, 0xF5) + dev_write(is_port2, 0xF5)
    } else {
        dev_write(is_port2, 0xF5)
    }
}

/// The bytes the disable-scanning phase consumed: the acknowledge alone,
/// or the refused first answer followed by the acknowledge.
pub open spec fn ack_reads(retried: bool, x: u8) -> Seq<u8> {
    if retried {
        seq![x, 0xFAu8]
    } else {
        seq![0xFAu8]
    }
}

/// Identification found no device: disable-scanning was refused twice.
pub open spec fn identify_no_device_disable(
    t: Seq<PortByte>,
    reads: Seq<u8>,
    is_port2: bool,
    x: u8,
    y: u8,
) -> bool {
    x != 0xFA && y != 0xFA && t == disable_tx(is_port2, true) && reads == seq![x, y]
}

/// Identification found no device: the identify command itself was not
/// acknowledged.
pub open spec fn identify_no_device_identify(
    t: Seq<PortByte>,
    reads: Seq<u8>,
    is_port2: bool,
    retried: bool,
    x: u8,
    a3: u8,
) -> bool {
    ack_ok(retried, x) && a3 != 0xFA && t == disable_tx(is_port2, retried) + dev_write(
        is_port2,
        0xF2,
    ) && reads == ack_reads(retried, x) + seq![a3]
}

/// Identification ran to completion: the device acknowledged, answered
/// with `b1` and optionally `b2`, and scanning was re-enabled (whose
/// answer `ae` is read but never interpreted).
pub open spec fn identify_classified(
    t: Seq<PortByte>,
    reads: Seq<u8>,
    is_port2: bool,
    retried: bool,
    x: u8,
    b1: u8,
    b2: Option<u8>,
    ae: u8,
) -> bool {
    ack_ok(retried, x) && t == disable_tx(is_port2, retried) + dev_write(is_port2, 0xF2)
        + dev_write(is_port2, 0xF4) && reads == ack_reads(retried, x) + seq![0xFAu8, b1] + opt_seq(
        b2,
    ) + seq![ae]
}

/// Identification ran out of retry budget at one of its blocking reads or
/// writes; the histories stop at that exchange.
pub open spec fn identify_timeout(
    t: Seq<PortByte>,
    reads: Seq<u8>,
    is_port2: bool,
    retried: bool,
    x: u8,
    b1: u8,
    b2: Option<u8>,
) -> bool {
    let f = fwd_prefix(is_port2);
    let dis = dev_write(is_port2, 0xF5);
    let idn = dev_write(is_port2, 0xF2);
    let ena = dev_write(is_port2, 0xF4);
    (t == f && reads == Seq::<u8>::empty()) || (t == dis && reads == Seq::<u8>::empty()) || (x
        != 0xFA && (t == dis + f || t == dis + dis) && reads == seq![x]) || (ack_ok(retried, x) && (
    ((t == disable_tx(is_port2, retried) + f || t == disable_tx(is_port2, retried) + idn) && reads
        == ack_reads(retried, x)) || (t == disable_tx(is_port2, retried) + idn && reads
        == ack_reads(retried, x) + seq![0xFAu8]) || ((t == disable_tx(is_port2, retried) + idn + f
        || t == disable_tx(is_port2, retried) + idn + ena) && reads == ack_reads(retried, x)
        + seq![0xFAu8, b1] + opt_seq(b2))
    ))
}

/// Everything `get_dev_type` can do, as a relation between the bytes it
/// wrote, the bytes it consumed, and its result.
pub open spec fn identify_post(
    t: Seq<PortByte>,
    reads: Seq<u8>,
    is_port2: bool,
    r: Result<DeviceType, DriverError>,
) -> bool {
    match r {
        Ok(dev) => (exists|x: u8, y: u8|
            identify_no_device_disable(t, reads, is_port2, x, y) && dev == DeviceType::Unknown(
                None,
                None,
            )) || (exists|retried: bool, x: u8, a3: u8|
            identify_no_device_identify(t, reads, is_port2, retried, x, a3) && dev
                == DeviceType::Unknown(None, None)) || (exists|
            retried: bool,
            x: u8,
            b1: u8,
            b2: Option<u8>,
            ae: u8,
        |
            identify_classified(t, reads, is_port2, retried, x, b1, b2, ae) && dev == classify(
                b1,
                b2,
            )),
        Err(e) => e == DriverError::PortTimeout && (exists|
            retried: bool,
            x: u8,
            b1: u8,
            b2: Option<u8>,
        | identify_timeout(t, reads, is_port2, retried, x, b1, b2)),
    }
}

/// Identifies the device on a channel: pauses its scanning (retrying the
/// pause once if it goes unacknowledged), asks it to identify itself,
/// reads one mandatory and one optional reply byte, classifies the reply,
/// and resumes scanning.  An unacknowledged pause or identify reports no
/// device; only an exhausted retry budget is an error.
pub fn get_dev_type<P: PortAccess>(port: &mut P, is_port2: bool) -> (r: Result<
    DeviceType,
    DriverError,
>)
    ensures
        old(port).tx().is_prefix_of(final(port).tx()),
        old(port).rx().is_prefix_of(final(port).rx()),
        old(port).wx().is_prefix_of(final(port).wx()),
        identify_post(
            appended(old(port).tx(), final(port).tx()),
            reads_of(appended(old(port).rx(), final(port).rx())),
            is_port2,
            r,
        ),
        r is Err ==> timeout_evidence(
            appended(old(port).rx(), final(port).rx()),
            appended(old(port).wx(), final(port).wx()),
        ),
{
    let ghost t0 = port.tx();
    let ghost r0 = port.rx();
    let ghost w0 = port.wx();
    let ghost f = fwd_prefix(is_port2);
    let ghost dis = dev_write(is_port2, 0xF5);
    let ghost idn = dev_write(is_port2, 0xF2);
    let ghost ena = dev_write(is_port2, 0xF4);

    // Pause the device's scanning stream so identify replies are not
    // interleaved with movement or key data.
    match send_to_device(port, is_port2, DeviceCommands::DisableScanning) {
        Ok(u) => {},
        Err(e) => {
            proof {
                lemma_extend_concat(t0, f);
                lemma_prefix_refl(r0);
                assert(identify_timeout(f, Seq::<u8>::empty(), is_port2, false, 0, 0, None));
                assert(timeout_evidence(appended(r0, port.rx()), appended(w0, port.wx())));
            }
            return Err(e);
        },
    }
    let a1 = match read_data_blocking(port) {
        Ok(v) => v,
        Err(e) => {
            proof {
                lemma_extend_concat(t0, dis);
                assert(identify_timeout(dis, Seq::<u8>::empty(), is_port2, false, 0, 0, None));
                assert(timeout_evidence(appended(r0, port.rx()), appended(w0, port.wx())));
            }
            return Err(e);
        },
    };
    let ghost rd_a1 = port.rx();
    let mut retried = false;
    let mut ackx: u8 = 0;
    if a1 != 0xFA {
        // Some devices miss the first pause request; retry it exactly once
        // before concluding nothing is attached.
        let ghost bw = port.wx();
        match send_to_device(port, is_port2, DeviceCommands::DisableScanning) {
            Ok(u) => {},
            Err(e) => {
                proof {
                    assert(appended(t0, port.tx()) =~= dis + f);
                    assert(identify_timeout(dis + f, seq![a1], is_port2, false, a1, 0, None));
                    lemma_prefix_refl(rd_a1);
                    lemma_timeout_evidence_chain(r0, rd_a1, port.rx(), w0, bw, port.wx());
                }
                return Err(e);
            },
        }
        proof {
            lemma_appended_chain(w0, bw, port.wx());
        }
        let a2 = match read_data_blocking(port) {
            Ok(v) => v,
            Err(e) => {
                proof {
                    assert(appended(t0, port.tx()) =~= dis + dis);
                    lemma_chain_reads(r0, rd_a1, port.rx());
                    assert(reads_of(appended(r0, port.rx())) =~= seq![a1]);
                    assert(identify_timeout(dis + dis, seq![a1], is_port2, false, a1, 0, None));
                    let ghost bw2 = port.wx();
                    lemma_prefix_refl(bw2);
                    lemma_timeout_evidence_chain(r0, rd_a1, port.rx(), w0, bw2, port.wx());
                }
                return Err(e);
            },
        };
        proof {
            lemma_chain_reads(r0, rd_a1, port.rx());
            assert(reads_of(appended(r0, port.rx())) =~= seq![a1, a2]);
            assert(appended(t0, port.tx()) =~= disable_tx(is_port2, true));
        }
        if a2 != 0xFA {
            proof {
                assert(identify_no_device_disable(
                    appended(t0, port.tx()),
                    seq![a1, a2],
                    is_port2,
                    a1,
                    a2,
                ));
            }
            return Ok(DeviceType::Unknown(None, None));
        }
        retried = true;
        ackx = a1;
    }
    proof {
        assert(appended(t0, port.tx()) =~= disable_tx(is_port2, retried));
        assert(reads_of(appended(r0, port.rx())) =~= ack_reads(retried, ackx));
        assert(ack_ok(retried, ackx));
    }
    let ghost td = disable_tx(is_port2, retried);
    let ghost rd = ack_reads(retried, ackx);
    let ghost rx_ack = port.rx();

    // Ask the device to identify itself.
    let ghost bw_idn = port.wx();
    match send_to_device(port, is_port2, DeviceCommands::Identify) {
        Ok(u) => {},
        Err(e) => {
            proof {
                assert(appended(t0, port.tx()) =~= td + f);
                assert(identify_timeout(td + f, rd, is_port2, retried, ackx, 0, None));
                lemma_prefix_refl(rx_ack);
                lemma_timeout_evidence_chain(r0, rx_ack, port.rx(), w0, bw_idn, port.wx());
            }
            return Err(e);
        },
    }
    proof {
        assert(appended(t0, port.tx()) =~= td + idn);
        lemma_appended_chain(w0, bw_idn, port.wx());
    }
    let a3 = match read_data_blocking(port) {
        Ok(v) => v,
        Err(e) => {
            proof {
                lemma_chain_reads(r0, rx_ack, port.rx());
                assert(reads_of(appended(r0, port.rx())) =~= rd);
                assert(identify_timeout(td + idn, rd, is_port2, retried, ackx, 0, None));
                let ghost bw = port.wx();
                lemma_prefix_refl(bw);
                lemma_timeout_evidence_chain(r0, rx_ack, port.rx(), w0, bw, port.wx());
            }
            return Err(e);
        },
    };
    proof {
        lemma_chain_reads(r0, rx_ack, port.rx());
        assert(reads_of(appended(r0, port.rx())) =~= rd + seq![a3]);
    }
    if a3 != 0xFA {
        proof {
            assert(identify_no_device_identify(
                td + idn,
                rd + seq![a3],
                is_port2,
                retried,
                ackx,
                a3,
            ));
        }
        return Ok(DeviceType::Unknown(None, None));
    }
    let ghost rx_idack = port.rx();

    // The device answers with one mandatory byte and, for some types, one
    // more; give the second byte a single grace attempt.
    let b1 = match read_data_blocking(port) {
        Ok(v) => v,
        Err(e) => {
            proof {
                lemma_chain_reads(r0, rx_idack, port.rx());
                assert(reads_of(appended(r0, port.rx())) =~= rd + seq![0xFAu8]);
                assert(identify_timeout(
                    td + idn,
                    rd + seq![0xFAu8],
                    is_port2,
                    retried,
                    ackx,
                    0,
                    None,
                ));
                let ghost bw = port.wx();
                lemma_prefix_refl(bw);
                lemma_timeout_evidence_chain(r0, rx_idack, port.rx(), w0, bw, port.wx());
            }
            return Err(e);
        },
    };
    let ghost rx_b1 = port.rx();
    let b2 = port.try_read_data();
    proof {
        assert(appended(rx_b1, port.rx()) =~= seq![b2]);
        lemma_reads_of_single(b2);
        lemma_chain_reads(r0, rx_b1, port.rx());
        lemma_chain_reads(r0, rx_idack, rx_b1);
        assert(reads_of(appended(r0, port.rx())) =~= rd + seq![0xFAu8, b1] + opt_seq(b2));
    }
    let dev = classify_reply(b1, b2);

    // Resume scanning; a refused resume is noted by the caller but does
    // not change the classification already decided.
    let ghost bw_ena = port.wx();
    match send_to_device(port, is_port2, DeviceCommands::EnableScanning) {
        Ok(u) => {},
        Err(e) => {
            proof {
                assert(appended(t0, port.tx()) =~= td + idn + f);
                assert(identify_timeout(
                    td + idn + f,
                    rd + seq![0xFAu8, b1] + opt_seq(b2),
                    is_port2,
                    retried,
                    ackx,
                    b1,
                    b2,
                ));
                lemma_prefix_refl(port.rx());
                lemma_timeout_evidence_chain(r0, port.rx(), port.rx(), w0, bw_ena, port.wx());
            }
            return Err(e);
        },
    }
    proof {
        assert(appended(t0, port.tx()) =~= td + idn + ena);
        lemma_appended_chain(w0, bw_ena, port.wx());
    }
    let ghost rx_b2 = port.rx();
    let ae = match read_data_blocking(port) {
        Ok(v) => v,
        Err(e) => {
            proof {
                lemma_chain_reads(r0, rx_b2, port.rx());
                assert(reads_of(appended(r0, port.rx())) =~= rd + seq![0xFAu8, b1] + opt_seq(b2));
                assert(identify_timeout(
                    td + idn + ena,
                    rd + seq![0xFAu8, b1] + opt_seq(b2),
                    is_port2,
                    retried,
                    ackx,
                    b1,
                    b2,
                ));
                let ghost bw = port.wx();
                lemma_prefix_refl(bw);
                lemma_timeout_evidence_chain(r0, rx_b2, port.rx(), w0, bw, port.wx());
            }
            return Err(e);
        },
    };
    proof {
        lemma_chain_reads(r0, rx_b2, port.rx());
        assert(reads_of(appended(r0, port.rx())) =~= rd + seq![0xFAu8, b1] + opt_seq(b2)
            + seq![ae]);
        assert(identify_classified(
            appended(t0, port.tx()),
            reads_of(appended(r0, port.rx())),
            is_port2,
            retried,
            ackx,
            b1,
            b2,
            ae,
        ));
    }
    Ok(dev)
}

} // verus!
