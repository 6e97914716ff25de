//! The initialization state machine: the fixed ten-step bring-up of the
//! controller, the capability probe that gates it, and the driver state it
//! fills in.
//!
//! The contract of [`I8042::init`] pins, for every outcome, the exact
//! sequence of command and data bytes written, the bytes consumed from the
//! data address, and the resulting driver state — conditional steps
//! present exactly when a second channel was detected.

use vstd::prelude::*;

use crate::codec::{bit, lemma_bits_eq, ControllerConfigurationByte};
use crate::error::DriverError;
use crate::port::{
    appended, drain_output_buffer, reads_of, timeout_evidence, PortAccess, PortByte, RETRY_BUDGET,
};
use crate::port::{lemma_drain_count, lemma_reads_of_all_some, lemma_timeout_evidence_chain};
use crate::protocol::{
    disable_port1, disable_port2, enable_port1, enable_port2, get_controller_configuration_byte,
    get_dev_type, identify_post, identify_timeout, reset_dev, set_controller_configuration_byte,
    test_controller, test_port1, test_port2, DeviceType,
};
use crate::protocol::{fwd_prefix, lemma_prefix_refl};
use crate::port::lemma_appended_chain;
use crate::protocol::{lemma_chain_reads, lemma_extend_concat};

verus! {

/// The configuration byte as the bring-up rewrites it: both interrupt
/// enables cleared, both clocks disabled, channel-1 translation cleared;
/// the system flag and the reserved bits keep what was read.
pub open spec fn masked_config(raw: u8) -> u8 {
    (raw & 0xBC) | 0x30
}

/// The write sequence that stores a configuration byte: the write-byte-0
/// command, then the raw byte through the data address.
pub open spec fn t_set_config(c: u8) -> Seq<PortByte> {
    seq![PortByte::Command(0x60), PortByte::Data(c)]
}

/// A stretch of writes present only on a condition.
pub open spec fn if_tx(cond: bool, s: Seq<PortByte>) -> Seq<PortByte> {
    if cond {
        s
    } else {
        Seq::<PortByte>::empty()
    }
}

/// A stretch of consumed bytes present only on a condition.
pub open spec fn if_reads(cond: bool, s: Seq<u8>) -> Seq<u8> {
    if cond {
        s
    } else {
        Seq::<u8>::empty()
    }
}

/// Everything written from the first disable up to the end of the
/// second-channel probe, for configuration byte `c`: the two disables, the
/// configuration read and rewrite, the self test with its unconditional
/// rewrite, and the probe with its cleanup when a second channel was
/// found.
pub open spec fn init_tx_through_probe(c: u8, has2: bool) -> Seq<PortByte> {
    seq![PortByte::Command(0xAD), PortByte::Command(0xA7), PortByte::Command(0x20)]
        + t_set_config(c) + seq![PortByte::Command(0xAA)] + t_set_config(c) + seq![
        PortByte::Command(0xA8),
        PortByte::Command(0x20),
    ] + if_tx(has2, seq![PortByte::Command(0xA7)] + t_set_config(c))
}

/// Everything consumed up to the end of the second-channel probe: the
/// drained stale bytes, the configuration byte, the self-test pass code,
/// and the probed configuration byte.
pub open spec fn init_reads_through_probe(drained: Seq<u8>, raw: u8, probe: u8) -> Seq<u8> {
    drained + seq![raw, 0x55u8, probe]
}

/// Everything written up to the end of the enable step: the probe prefix,
/// the interface tests, and the enables, second-channel parts present iff
/// one was found.
pub open spec fn init_tx_through_enable(c: u8, has2: bool) -> Seq<PortByte> {
    init_tx_through_probe(c, has2) + seq![PortByte::Command(0xAB)] + if_tx(
        has2,
        seq![PortByte::Command(0xA9)],
    ) + seq![PortByte::Command(0xAE)] + if_tx(has2, seq![PortByte::Command(0xA8)])
}

/// Everything consumed up to the end of the interface tests.
pub open spec fn init_reads_through_tests(
    drained: Seq<u8>,
    raw: u8,
    probe: u8,
    has2: bool,
) -> Seq<u8> {
    init_reads_through_probe(drained, raw, probe) + seq![0x00u8] + if_reads(has2, seq![0x00u8])
}

/// Everything written up to the end of the reset step.
pub open spec fn init_tx_through_resets(c: u8, has2: bool) -> Seq<PortByte> {
    init_tx_through_enable(c, has2) + seq![PortByte::Data(0xFF)] + if_tx(
        has2,
        seq![PortByte::Command(0xD4), PortByte::Data(0xFF)],
    )
}

/// Everything consumed up to the end of the reset step.
pub open spec fn init_reads_through_resets(
    drained: Seq<u8>,
    raw: u8,
    probe: u8,
    has2: bool,
) -> Seq<u8> {
    init_reads_through_tests(drained, raw, probe, has2) + seq![0xFAu8, 0xAAu8] + if_reads(
        has2,
        seq![0xFAu8, 0xAAu8],
    )
}

/// The complete write sequence of a successful initialization, with the
/// identify stretches `t1` and `t2` of the two channels.
pub open spec fn init_tx_ok(c: u8, has2: bool, t1: Seq<PortByte>, t2: Seq<PortByte>) -> Seq<
    PortByte,
> {
    init_tx_through_resets(c, has2) + t1 + if_tx(has2, t2)
}

/// The complete consumed sequence of a successful initialization.
pub open spec fn init_reads_ok(
    drained: Seq<u8>,
    raw: u8,
    probe: u8,
    has2: bool,
    r1: Seq<u8>,
    r2: Seq<u8>,
) -> Seq<u8> {
    init_reads_through_resets(drained, raw, probe, has2) + r1 + if_reads(has2, r2)
}

/// A successful run: the configuration byte read first had the system flag
/// set; the histories are exactly the ten-step transcript for the masked
/// configuration `masked_config(raw)`, with second-channel steps present
/// iff the probed byte reported the channel-2 clock running; and the final
/// state carries that configuration, the channel count, and the
/// classifications the identify stretches decided.
pub open spec fn init_success(
    t: Seq<PortByte>,
    reads: Seq<u8>,
    pre: I8042,
    post: I8042,
    drained: Seq<u8>,
    raw: u8,
    probe: u8,
    t1: Seq<PortByte>,
    r1: Seq<u8>,
    t2: Seq<PortByte>,
    r2: Seq<u8>,
) -> bool {
    let c = masked_config(raw);
    let has2 = !bit(probe, 5);
    drained.len() <= RETRY_BUDGET && bit(raw, 2) && t == init_tx_ok(c, has2, t1, t2) && reads
        == init_reads_ok(
        drained,
        raw,
        probe,
        has2,
        r1,
        r2,
    ) && identify_post(t1, r1, false, Ok(post.port1)) && (has2 ==> identify_post(
        t2,
        r2,
        true,
        Ok(post.port2),
    )) && (!has2 ==> post.port2 == pre.port2 && t2 == Seq::<PortByte>::empty() && r2 == Seq::<
        u8,
    >::empty()) && post.config.0 == c && post.is_exists_port2 == has2
}

/// The run stopped at the system-flag gate: the configuration byte read
/// after the drain had the flag clear, and nothing was written past the
/// configuration read command.
pub open spec fn init_post_gate(t: Seq<PortByte>, reads: Seq<u8>, drained: Seq<u8>, raw: u8) -> bool {
    drained.len() <= RETRY_BUDGET && !bit(raw, 2) && t == seq![
        PortByte::Command(0xAD),
        PortByte::Command(0xA7),
        PortByte::Command(0x20),
    ] && reads == drained + seq![raw]
}

/// The run stopped at the self test: the controller answered `code`
/// instead of the pass code, and nothing was written past the self-test
/// command.
pub open spec fn init_self_test_failed(
    t: Seq<PortByte>,
    reads: Seq<u8>,
    drained: Seq<u8>,
    raw: u8,
    code: u8,
) -> bool {
    drained.len() <= RETRY_BUDGET && bit(raw, 2) && code != 0x55 && t == seq![
        PortByte::Command(0xAD),
        PortByte::Command(0xA7),
        PortByte::Command(0x20),
    ] + t_set_config(masked_config(raw)) + seq![PortByte::Command(0xAA)] && reads == drained + seq![
        raw,
        code,
    ]
}

/// The run stopped at an interface test: the named channel answered the
/// non-zero fault `code`.
pub open spec fn init_port_test_failed(
    t: Seq<PortByte>,
    reads: Seq<u8>,
    drained: Seq<u8>,
    raw: u8,
    probe: u8,
    channel: u8,
    code: u8,
) -> bool {
    let c = masked_config(raw);
    let has2 = !bit(probe, 5);
    drained.len() <= RETRY_BUDGET && bit(raw, 2) && code != 0 && ((channel == 1 && t
        == init_tx_through_probe(c, has2) + seq![
        PortByte::Command(0xAB),
    ] && reads == init_reads_through_probe(drained, raw, probe) + seq![code]) || (channel == 2
        && has2 && t == init_tx_through_probe(c, has2) + seq![
        PortByte::Command(0xAB),
        PortByte::Command(0xA9),
    ] && reads == init_reads_through_probe(drained, raw, probe) + seq![0x00u8, code]))
}

/// The run stopped at a device reset: the named channel answered `a`, `b`
/// instead of acknowledge then self-test-passed.
pub open spec fn init_reset_failed(
    t: Seq<PortByte>,
    reads: Seq<u8>,
    drained: Seq<u8>,
    raw: u8,
    probe: u8,
    channel: u8,
    a: u8,
    b: u8,
) -> bool {
    let c = masked_config(raw);
    let has2 = !bit(probe, 5);
    drained.len() <= RETRY_BUDGET && bit(raw, 2) && !(a == 0xFA && b == 0xAA) && ((channel == 1 && t
        == init_tx_through_enable(
        c,
        has2,
    ) + seq![PortByte::Data(0xFF)] && reads == init_reads_through_tests(drained, raw, probe, has2)
        + seq![a, b]) || (channel == 2 && has2 && t == init_tx_through_enable(c, has2) + seq![
        PortByte::Data(0xFF),
        PortByte::Command(0xD4),
        PortByte::Data(0xFF),
    ] && reads == init_reads_through_tests(drained, raw, probe, has2) + seq![0xFAu8, 0xAAu8, a, b]))
}

/// The run ran out of retry budget at one of its blocking exchanges: the
/// histories stop exactly at that exchange, which delivered nothing (or,
/// for the flush, never found the buffer empty).  Each disjunct is one
/// stop point, in sequence order.
pub open spec fn init_timeout(
    t: Seq<PortByte>,
    reads: Seq<u8>,
    drained: Seq<u8>,
    raw: u8,
    probe: u8,
    a: u8,
    t1: Seq<PortByte>,
    r1: Seq<u8>,
    t2: Seq<PortByte>,
    r2: Seq<u8>,
    retried: bool,
    x: u8,
    b1: u8,
    b2: Option<u8>,
) -> bool {
    let c = masked_config(raw);
    let has2 = !bit(probe, 5);
    let prelude = seq![PortByte::Command(0xAD), PortByte::Command(0xA7), PortByte::Command(0x20)];
    drained.len() <= RETRY_BUDGET && (
    // flushing the output buffer never found it empty
    (t == seq![PortByte::Command(0xAD), PortByte::Command(0xA7)] && reads == drained
        && drained.len() == RETRY_BUDGET)
    // reading the configuration byte
    || (t == prelude && reads == drained)
    // storing the rewritten configuration byte
    || (bit(raw, 2) && t == prelude + seq![PortByte::Command(0x60)] && reads == drained + seq![
        raw,
    ])
    // reading the self-test answer
    || (bit(raw, 2) && t == prelude + t_set_config(c) + seq![PortByte::Command(0xAA)] && reads
        == drained + seq![raw])
    // re-storing the configuration byte after the self test
    || (bit(raw, 2) && t == prelude + t_set_config(c) + seq![PortByte::Command(0xAA)] + seq![
        PortByte::Command(0x60),
    ] && reads == drained + seq![raw, 0x55u8])
    // reading the probe's configuration byte
    || (bit(raw, 2) && t == prelude + t_set_config(c) + seq![PortByte::Command(0xAA)]
        + t_set_config(c) + seq![PortByte::Command(0xA8), PortByte::Command(0x20)] && reads
        == drained + seq![raw, 0x55u8])
    // restoring the configuration byte after a positive probe
    || (bit(raw, 2) && has2 && t == prelude + t_set_config(c) + seq![PortByte::Command(0xAA)]
        + t_set_config(c) + seq![PortByte::Command(0xA8), PortByte::Command(0x20)] + seq![
        PortByte::Command(0xA7),
        PortByte::Command(0x60),
    ] && reads == init_reads_through_probe(drained, raw, probe))
    // reading the channel-1 interface test answer
    || (bit(raw, 2) && t == init_tx_through_probe(c, has2) + seq![PortByte::Command(0xAB)]
        && reads == init_reads_through_probe(drained, raw, probe))
    // reading the channel-2 interface test answer
    || (bit(raw, 2) && has2 && t == init_tx_through_probe(c, has2) + seq![
        PortByte::Command(0xAB),
        PortByte::Command(0xA9),
    ] && reads == init_reads_through_probe(drained, raw, probe) + seq![0x00u8])
    // resetting channel 1: the write refused, or an answer missing
    || (bit(raw, 2) && ((t == init_tx_through_enable(c, has2) && reads == init_reads_through_tests(
        drained,
        raw,
        probe,
        has2,
    )) || (t == init_tx_through_enable(c, has2) + seq![PortByte::Data(0xFF)] && (reads
        == init_reads_through_tests(drained, raw, probe, has2) || reads
        == init_reads_through_tests(drained, raw, probe, has2) + seq![a]))))
    // resetting channel 2
    || (bit(raw, 2) && has2 && ((t == init_tx_through_enable(c, has2) + seq![
        PortByte::Data(0xFF),
        PortByte::Command(0xD4),
    ] && reads == init_reads_through_tests(drained, raw, probe, has2) + seq![0xFAu8, 0xAAu8]) || (t
        == init_tx_through_enable(c, has2) + seq![
        PortByte::Data(0xFF),
        PortByte::Command(0xD4),
        PortByte::Data(0xFF),
    ] && (reads == init_reads_through_tests(drained, raw, probe, has2) + seq![0xFAu8, 0xAAu8]
        || reads == init_reads_through_tests(drained, raw, probe, has2) + seq![
        0xFAu8,
        0xAAu8,
        a,
    ]))))
    // identifying channel 1
    || (bit(raw, 2) && identify_timeout(t1, r1, false, retried, x, b1, b2) && t
        == init_tx_through_resets(c, has2) + t1 && reads == init_reads_through_resets(
        drained,
        raw,
        probe,
        has2,
    ) + r1)
    // identifying channel 2
    || (bit(raw, 2) && has2 && (exists|d1: DeviceType| identify_post(t1, r1, false, Ok(d1)))
        && identify_timeout(t2, r2, true, retried, x, b1, b2) && t == init_tx_through_resets(
        c,
        has2,
    ) + t1 + t2 && reads == init_reads_through_resets(drained, raw, probe, has2) + r1 + r2))
}

/// The run's histories stop at one of the timeout stop points of
/// `init_timeout`, for some stale bytes, configuration bytes, and partial
/// exchanges.
pub open spec fn init_timed_out(t: Seq<PortByte>, reads: Seq<u8>) -> bool {
    exists|
        drained: Seq<u8>,
        raw: u8,
        probe: u8,
        a: u8,
        t1: Seq<PortByte>,
        r1: Seq<u8>,
        t2: Seq<PortByte>,
        r2: Seq<u8>,
        retried: bool,
        x: u8,
        b1: u8,
        b2: Option<u8>,
    |
        init_timeout(t, reads, drained, raw, probe, a, t1, r1, t2, r2, retried, x, b1, b2)
}

/// The driver state of one controller: the shadow configuration byte,
/// whether a second channel exists, and what each channel was found to
/// carry.  Filled in by one run of [`I8042::init`] and then only
/// inspected.
#[derive(Clone, Copy, Debug)]
pub struct I8042 {
    /// What the first channel carries.
    pub port1: DeviceType,
    /// What the second channel carries; meaningful only when
    /// `is_exists_port2` holds.
    pub port2: DeviceType,
    /// Whether the controller reported a working second channel.
    pub is_exists_port2: bool,
    /// The shadow copy of the controller's configuration byte.
    pub config: ControllerConfigurationByte,
}

impl Default for I8042 {
    /// The state before initialization: no second channel, nothing
    /// classified, an all-clear configuration shadow.
    fn default() -> (r: Self)
        ensures
            r.port1 == DeviceType::Unknown(None, None),
            r.port2 == DeviceType::Unknown(None, None),
            !r.is_exists_port2,
            r.config.0 == 0,
    {
        I8042 {
            port1: DeviceType::Unknown(None, None),
            port2: DeviceType::Unknown(None, None),
            is_exists_port2: false,
            config: ControllerConfigurationByte(0),
        }
    }
}

/// What every driver of this family offers: a capability probe that must
/// pass before any I/O, one-shot initialization, and teardown.
pub trait Driver: Sized {
    /// The short name the driver logs under.
    const DRIVER_NAME: &'static str;

    /// Decides from the platform's capability flag whether the controller
    /// may be driven at all.
    fn probe(present: bool) -> Result<(), DriverError>;

    /// Runs the bring-up sequence over the given port layer.
    fn init<P: PortAccess>(&mut self, port: &mut P) -> Result<(), DriverError>;

    /// Releases the driver; nothing persistent was created.
    fn remove(&mut self);
}

impl I8042 {
    /// The capability probe: accepts exactly when the platform's hardware
    /// description says the controller is physically present, and declines
    /// with `ControllerAbsent` otherwise, before any port access.
    pub fn probe(present: bool) -> (r: Result<(), DriverError>)
        ensures
            present ==> r == Ok::<(), DriverError>(()),
            !present ==> r == Err::<(), DriverError>(DriverError::ControllerAbsent),
    {
        if present {
            Ok(())
        } else {
            Err(DriverError::ControllerAbsent)
        }
    }

    /// Teardown: nothing to release.
    pub fn remove(&mut self)
        ensures
            *final(self) == *old(self),
    {
    }

    /// The ten-step bring-up.  On success the port histories grew by
    /// exactly the transcript `init_success` describes and the state holds
    /// the outcome; on failure the state is untouched and the histories
    /// stop exactly at the failing step, as the error-specific predicate
    /// describes — for a timeout, at one of the stop points of
    /// `init_timed_out`, with the exhausted budget's trace still at the
    /// end of the histories.
    #[verifier::rlimit(100)]
    pub fn init<P: PortAccess>(&mut self, port: &mut P) -> (r: Result<(), DriverError>)
        ensures
            old(port).tx().is_prefix_of(final(port).tx()),
            old(port).rx().is_prefix_of(final(port).rx()),
            ({
                let t = appended(old(port).tx(), final(port).tx());
                let reads = reads_of(appended(old(port).rx(), final(port).rx()));
                match r {
                    Ok(u) => exists|
                        drained: Seq<u8>,
                        raw: u8,
                        probe: u8,
                        t1: Seq<PortByte>,
                        r1: Seq<u8>,
                        t2: Seq<PortByte>,
                        r2: Seq<u8>,
                    |
                        init_success(
                            t,
                            reads,
                            *old(self),
                            *final(self),
                            drained,
                            raw,
                            probe,
                            t1,
                            r1,
                            t2,
                            r2,
                        ),
                    Err(e) => *final(self) == *old(self) && ((e == DriverError::PostNotPassed
                        && (exists|drained: Seq<u8>, raw: u8|
                        init_post_gate(t, reads, drained, raw))) || (e
                        == DriverError::SelfTestFailed && (exists|
                        drained: Seq<u8>,
                        raw: u8,
                        code: u8,
                    |
                        init_self_test_failed(t, reads, drained, raw, code))) || (exists|
                        drained: Seq<u8>,
                        raw: u8,
                        probe: u8,
                        channel: u8,
                        code: u8,
                    |
                        e == DriverError::PortTestFailed(channel, code) && init_port_test_failed(
                            t,
                            reads,
                            drained,
                            raw,
                            probe,
                            channel,
                            code,
                        )) || (exists|
                        drained: Seq<u8>,
                        raw: u8,
                        probe: u8,
                        channel: u8,
                        a: u8,
                        b: u8,
                    |
                        e == DriverError::ResetFailed(channel) && init_reset_failed(
                            t,
                            reads,
                            drained,
                            raw,
                            probe,
                            channel,
                            a,
                            b,
                        )) || (e == DriverError::PortTimeout && old(port).wx().is_prefix_of(
                        final(port).wx(),
                    ) && timeout_evidence(
                        appended(old(port).rx(), final(port).rx()),
                        appended(old(port).wx(), final(port).wx()),
                    ) && init_timed_out(t, reads))),
                }
            }),
    {
        let ghost t0 = port.tx();
        let ghost r0 = port.rx();
        let ghost w0 = port.wx();

        // Disable both channels so nothing talks while the controller is
        // reconfigured; disabling an absent second channel is harmless.
        disable_port1(port);
        disable_port2(port);
        proof {
            assert(appended(t0, port.tx()) =~= seq![
                PortByte::Command(0xAD),
                PortByte::Command(0xA7),
            ]);
            assert(t0 =~= port.tx().subrange(0, t0.len() as int));
        }
        let ghost acc_t = seq![PortByte::Command(0xAD), PortByte::Command(0xA7)];

        // Flush stale bytes out of the output buffer.
        let ghost br = port.rx();
        match drain_output_buffer(port) {
            Ok(u) => {},
            Err(e) => {
                proof {
                    let d = appended(r0, port.rx());
                    lemma_reads_of_all_some(d);
                    lemma_prefix_refl(w0);
                    assert(timeout_evidence(d, appended(w0, port.wx())));
                    assert(init_timeout(
                        appended(t0, port.tx()),
                        reads_of(d),
                        reads_of(d),
                        0,
                        0,
                        0,
                        Seq::<PortByte>::empty(),
                        Seq::<u8>::empty(),
                        Seq::<PortByte>::empty(),
                        Seq::<u8>::empty(),
                        false,
                        0,
                        0,
                        None,
                    ));
                    assert(init_timed_out(appended(t0, port.tx()), reads_of(d)));
                }
                return Err(e);
            },
        }
        let ghost drained = reads_of(appended(r0, port.rx()));
        let ghost acc_r = drained;
        proof {
            lemma_drain_count(appended(r0, port.rx()));
        }

        // Read the configuration byte; the system flag must report a
        // passed power-on self test, else the controller state cannot be
        // trusted and the sequence must not proceed.
        let ghost bt = port.tx();
        let ghost br = port.rx();
        let cfg0 = match get_controller_configuration_byte(port) {
            Ok(c) => c,
            Err(e) => {
                proof {
                    lemma_appended_chain(t0, bt, port.tx());
                    assert(appended(t0, port.tx()) == acc_t + seq![PortByte::Command(0x20)]);
                    lemma_chain_reads(r0, br, port.rx());
                    assert(reads_of(appended(r0, port.rx())) =~= drained);
                    lemma_prefix_refl(w0);
                    lemma_timeout_evidence_chain(r0, br, port.rx(), w0, w0, port.wx());
                    assert(appended(t0, port.tx()) =~= seq![
                        PortByte::Command(0xAD),
                        PortByte::Command(0xA7),
                        PortByte::Command(0x20),
                    ]);
                    assert(init_timeout(
                        appended(t0, port.tx()),
                        reads_of(appended(r0, port.rx())),
                        drained,
                        0,
                        0,
                        0,
                        Seq::<PortByte>::empty(),
                        Seq::<u8>::empty(),
                        Seq::<PortByte>::empty(),
                        Seq::<u8>::empty(),
                        false,
                        0,
                        0,
                        None,
                    ));
                    assert(init_timed_out(
                        appended(t0, port.tx()),
                        reads_of(appended(r0, port.rx())),
                    ));
                }
                return Err(e);
            },
        };
        let raw = cfg0.0;
        proof {
            lemma_appended_chain(t0, bt, port.tx());
            lemma_chain_reads(r0, br, port.rx());
            assert(appended(t0, port.tx()) == acc_t + seq![PortByte::Command(0x20)]);
            assert(reads_of(appended(r0, port.rx())) == acc_r + seq![raw]);
        }
        let ghost acc_t = acc_t + seq![PortByte::Command(0x20)];
        let ghost acc_r = acc_r + seq![raw];
        if !cfg0.system_flag() {
            proof {
                assert(acc_t =~= seq![
                    PortByte::Command(0xAD),
                    PortByte::Command(0xA7),
                    PortByte::Command(0x20),
                ]);
                assert(init_post_gate(
                    appended(t0, port.tx()),
                    reads_of(appended(r0, port.rx())),
                    drained,
                    raw,
                ));
            }
            return Err(DriverError::PostNotPassed);
        }

        // Rewrite the configuration: interrupts off, both clocks disabled,
        // translation off.
        let mut cfg = cfg0;
        cfg.set_is_enable_interrupt1(false);
        cfg.set_is_enable_interrupt2(false);
        cfg.set_is_disabled_clock1(true);
        cfg.set_is_disabled_clock2(true);
        cfg.set_is_enabled_translation1(false);
        proof {
            assert(!bit(masked_config(raw), 0) && !bit(masked_config(raw), 1) && bit(
                masked_config(raw),
                2,
            ) == bit(raw, 2) && bit(masked_config(raw), 3) == bit(raw, 3) && bit(
                masked_config(raw),
                4,
            ) && bit(masked_config(raw), 5) && !bit(masked_config(raw), 6) && bit(
                masked_config(raw),
                7,
            ) == bit(raw, 7)) by (bit_vector);
            lemma_bits_eq(cfg.0, masked_config(raw));
        }
        let ghost c = masked_config(raw);

        let ghost bt = port.tx();
        let ghost brx = port.rx();
        let ghost bw = port.wx();
        match set_controller_configuration_byte(port, cfg) {
            Ok(u) => {},
            Err(e) => {
                proof {
                    lemma_extend_concat(bt, seq![PortByte::Command(0x60)]);
                    lemma_appended_chain(t0, bt, port.tx());
                    lemma_prefix_refl(brx);
                    lemma_prefix_refl(w0);
                    lemma_timeout_evidence_chain(r0, brx, port.rx(), w0, bw, port.wx());
                    assert(appended(t0, port.tx()) =~= seq![
                        PortByte::Command(0xAD),
                        PortByte::Command(0xA7),
                        PortByte::Command(0x20),
                    ] + seq![PortByte::Command(0x60)]);
                    assert(init_timeout(
                        appended(t0, port.tx()),
                        reads_of(appended(r0, port.rx())),
                        drained,
                        raw,
                        0,
                        0,
                        Seq::<PortByte>::empty(),
                        Seq::<u8>::empty(),
                        Seq::<PortByte>::empty(),
                        Seq::<u8>::empty(),
                        false,
                        0,
                        0,
                        None,
                    ));
                    assert(init_timed_out(
                        appended(t0, port.tx()),
                        reads_of(appended(r0, port.rx())),
                    ));
                }
                return Err(e);
            },
        }
        proof {
            lemma_extend_concat(bt, t_set_config(c));
            lemma_appended_chain(t0, bt, port.tx());
            assert(appended(t0, port.tx()) == acc_t + t_set_config(c));
            lemma_prefix_refl(w0);
            lemma_appended_chain(w0, bw, port.wx());
        }
        let ghost acc_t = acc_t + t_set_config(c);

        // Controller self test; failure is terminal for the whole
        // sequence.
        let ghost bt = port.tx();
        let ghost br = port.rx();
        let selftest = test_controller(port);
        proof {
            lemma_appended_chain(t0, bt, port.tx());
            lemma_chain_reads(r0, br, port.rx());
            assert(appended(t0, port.tx()) == acc_t + seq![PortByte::Command(0xAA)]);
        }
        let ghost acc_t = acc_t + seq![PortByte::Command(0xAA)];
        match selftest {
            Ok(u) => {},
            Err(e) => {
                proof {
                    if e == DriverError::SelfTestFailed {
                        let code = choose|cd: u8|
                            cd != 0x55 && reads_of(appended(br, port.rx())) == seq![cd];
                        assert(reads_of(appended(r0, port.rx())) == acc_r + seq![code]);
                        assert(reads_of(appended(r0, port.rx())) =~= drained + seq![raw, code]);
                        assert(acc_t =~= seq![
                            PortByte::Command(0xAD),
                            PortByte::Command(0xA7),
                            PortByte::Command(0x20),
                        ] + t_set_config(masked_config(raw)) + seq![PortByte::Command(0xAA)]);
                        assert(init_self_test_failed(
                            appended(t0, port.tx()),
                            reads_of(appended(r0, port.rx())),
                            drained,
                            raw,
                            code,
                        ));
                    } else {
                        assert(reads_of(appended(r0, port.rx())) =~= drained + seq![raw]);
                        let bw = port.wx();
                        lemma_prefix_refl(bw);
                        lemma_timeout_evidence_chain(r0, br, port.rx(), w0, bw, port.wx());
                        assert(appended(t0, port.tx()) =~= seq![
                            PortByte::Command(0xAD),
                            PortByte::Command(0xA7),
                            PortByte::Command(0x20),
                        ] + t_set_config(c) + seq![PortByte::Command(0xAA)]);
                        assert(init_timeout(
                            appended(t0, port.tx()),
                            reads_of(appended(r0, port.rx())),
                            drained,
                            raw,
                            0,
                            0,
                            Seq::<PortByte>::empty(),
                            Seq::<u8>::empty(),
                            Seq::<PortByte>::empty(),
                            Seq::<u8>::empty(),
                            false,
                            0,
                            0,
                            None,
                        ));
                        assert(init_timed_out(
                            appended(t0, port.tx()),
                            reads_of(appended(r0, port.rx())),
                        ));
                    }
                }
                return Err(e);
            },
        }
        let ghost acc_r = acc_r + seq![0x55u8];

        // A self test resets some controllers, so store the configuration
        // again unconditionally.
        let ghost bt = port.tx();
        let ghost brx = port.rx();
        let ghost bw = port.wx();
        match set_controller_configuration_byte(port, cfg) {
            Ok(u) => {},
            Err(e) => {
                proof {
                    lemma_extend_concat(bt, seq![PortByte::Command(0x60)]);
                    lemma_appended_chain(t0, bt, port.tx());
                    lemma_prefix_refl(brx);
                    lemma_timeout_evidence_chain(r0, brx, port.rx(), w0, bw, port.wx());
                    assert(reads_of(appended(r0, port.rx())) =~= drained + seq![raw, 0x55u8]);
                    assert(appended(t0, port.tx()) =~= seq![
                        PortByte::Command(0xAD),
                        PortByte::Command(0xA7),
                        PortByte::Command(0x20),
                    ] + t_set_config(c) + seq![PortByte::Command(0xAA)] + seq![
                        PortByte::Command(0x60),
                    ]);
                    assert(init_timeout(
                        appended(t0, port.tx()),
                        reads_of(appended(r0, port.rx())),
                        drained,
                        raw,
                        0,
                        0,
                        Seq::<PortByte>::empty(),
                        Seq::<u8>::empty(),
                        Seq::<PortByte>::empty(),
                        Seq::<u8>::empty(),
                        false,
                        0,
                        0,
                        None,
                    ));
                    assert(init_timed_out(
                        appended(t0, port.tx()),
                        reads_of(appended(r0, port.rx())),
                    ));
                }
                return Err(e);
            },
        }
        proof {
            lemma_extend_concat(bt, t_set_config(c));
            lemma_appended_chain(t0, bt, port.tx());
            assert(appended(t0, port.tx()) == acc_t + t_set_config(c));
            lemma_appended_chain(w0, bw, port.wx());
        }
        let ghost acc_t = acc_t + t_set_config(c);

        // Probe for a second channel: enable it and see whether its clock
        // comes up; undo the probe's side effects if it did.
        let ghost bt = port.tx();
        enable_port2(port);
        proof {
            lemma_extend_concat(bt, seq![PortByte::Command(0xA8)]);
            lemma_appended_chain(t0, bt, port.tx());
        }
        let ghost acc_t = acc_t + seq![PortByte::Command(0xA8)];
        let ghost bt = port.tx();
        let ghost br = port.rx();
        let probe_cfg = match get_controller_configuration_byte(port) {
            Ok(cb) => cb,
            Err(e) => {
                proof {
                    lemma_appended_chain(t0, bt, port.tx());
                    lemma_chain_reads(r0, br, port.rx());
                    assert(reads_of(appended(r0, port.rx())) =~= drained + seq![raw, 0x55u8]);
                    let bw = port.wx();
                    lemma_prefix_refl(bw);
                    lemma_timeout_evidence_chain(r0, br, port.rx(), w0, bw, port.wx());
                    assert(appended(t0, port.tx()) =~= seq![
                        PortByte::Command(0xAD),
                        PortByte::Command(0xA7),
                        PortByte::Command(0x20),
                    ] + t_set_config(c) + seq![PortByte::Command(0xAA)] + t_set_config(c) + seq![
                        PortByte::Command(0xA8),
                        PortByte::Command(0x20),
                    ]);
                    assert(init_timeout(
                        appended(t0, port.tx()),
                        reads_of(appended(r0, port.rx())),
                        drained,
                        raw,
                        0,
                        0,
                        Seq::<PortByte>::empty(),
                        Seq::<u8>::empty(),
                        Seq::<PortByte>::empty(),
                        Seq::<u8>::empty(),
                        false,
                        0,
                        0,
                        None,
                    ));
                    assert(init_timed_out(
                        appended(t0, port.tx()),
                        reads_of(appended(r0, port.rx())),
                    ));
                }
                return Err(e);
            },
        };
        let ghost probe = probe_cfg.0;
        proof {
            lemma_appended_chain(t0, bt, port.tx());
            lemma_chain_reads(r0, br, port.rx());
            assert(appended(t0, port.tx()) == acc_t + seq![PortByte::Command(0x20)]);
            assert(reads_of(appended(r0, port.rx())) == acc_r + seq![probe]);
        }
        let ghost acc_t = acc_t + seq![PortByte::Command(0x20)];
        let ghost acc_r = acc_r + seq![probe];
        let mut has2 = false;
        if !probe_cfg.is_disabled_clock2() {
            has2 = true;
            let ghost bt = port.tx();
            disable_port2(port);
            proof {
                lemma_extend_concat(bt, seq![PortByte::Command(0xA7)]);
                lemma_appended_chain(t0, bt, port.tx());
            }
            let ghost bt = port.tx();
            let ghost brx = port.rx();
            let ghost bw = port.wx();
            match set_controller_configuration_byte(port, cfg) {
                Ok(u) => {},
                Err(e) => {
                    proof {
                        lemma_extend_concat(bt, seq![PortByte::Command(0x60)]);
                        lemma_appended_chain(t0, bt, port.tx());
                        lemma_prefix_refl(brx);
                        lemma_timeout_evidence_chain(r0, brx, port.rx(), w0, bw, port.wx());
                        assert(reads_of(appended(r0, port.rx())) =~= init_reads_through_probe(
                            drained,
                            raw,
                            probe,
                        ));
                        assert(appended(t0, port.tx()) =~= seq![
                            PortByte::Command(0xAD),
                            PortByte::Command(0xA7),
                            PortByte::Command(0x20),
                        ] + t_set_config(c) + seq![PortByte::Command(0xAA)] + t_set_config(c)
                            + seq![PortByte::Command(0xA8), PortByte::Command(0x20)] + seq![
                            PortByte::Command(0xA7),
                            PortByte::Command(0x60),
                        ]);
                        assert(init_timeout(
                            appended(t0, port.tx()),
                            reads_of(appended(r0, port.rx())),
                            drained,
                            raw,
                            probe,
                            0,
                            Seq::<PortByte>::empty(),
                            Seq::<u8>::empty(),
                            Seq::<PortByte>::empty(),
                            Seq::<u8>::empty(),
                            false,
                            0,
                            0,
                            None,
                        ));
                        assert(init_timed_out(
                            appended(t0, port.tx()),
                            reads_of(appended(r0, port.rx())),
                        ));
                    }
                    return Err(e);
                },
            }
            proof {
                lemma_extend_concat(bt, t_set_config(c));
                lemma_appended_chain(t0, bt, port.tx());
                assert(appended(t0, port.tx()) == acc_t + (seq![PortByte::Command(0xA7)]
                    + t_set_config(c)));
                lemma_appended_chain(w0, bw, port.wx());
            }
        }
        proof {
            assert(has2 == !bit(probe, 5));
            assert(appended(t0, port.tx()) =~= init_tx_through_probe(c, has2));
            assert(reads_of(appended(r0, port.rx())) =~= init_reads_through_probe(
                drained,
                raw,
                probe,
            ));
        }
        let ghost acc_t = init_tx_through_probe(c, has2);
        let ghost acc_r = init_reads_through_probe(drained, raw, probe);

        // Interface tests; a fault on either present channel is fatal.
        let ghost bt = port.tx();
        let ghost br = port.rx();
        match test_port1(port) {
            Ok(u) => {},
            Err(e) => {
                proof {
                    lemma_appended_chain(t0, bt, port.tx());
                    lemma_chain_reads(r0, br, port.rx());
                    assert(appended(t0, port.tx()) == acc_t + seq![PortByte::Command(0xAB)]);
                    if e == DriverError::PortTimeout {
                        assert(reads_of(appended(r0, port.rx())) =~= init_reads_through_probe(
                            drained,
                            raw,
                            probe,
                        ));
                        let bw = port.wx();
                        lemma_prefix_refl(bw);
                        lemma_timeout_evidence_chain(r0, br, port.rx(), w0, bw, port.wx());
                        assert(init_timeout(
                            appended(t0, port.tx()),
                            reads_of(appended(r0, port.rx())),
                            drained,
                            raw,
                            probe,
                            0,
                            Seq::<PortByte>::empty(),
                            Seq::<u8>::empty(),
                            Seq::<PortByte>::empty(),
                            Seq::<u8>::empty(),
                            false,
                            0,
                            0,
                            None,
                        ));
                        assert(init_timed_out(
                            appended(t0, port.tx()),
                            reads_of(appended(r0, port.rx())),
                        ));
                    } else {
                        let code = choose|cd: u8|
                            cd != 0x00 && e == DriverError::PortTestFailed(1, cd) && reads_of(
                                appended(br, port.rx()),
                            ) == seq![cd];
                        assert(init_port_test_failed(
                            appended(t0, port.tx()),
                            reads_of(appended(r0, port.rx())),
                            drained,
                            raw,
                            probe,
                            1,
                            code,
                        ));
                    }
                }
                return Err(e);
            },
        }
        proof {
            lemma_appended_chain(t0, bt, port.tx());
            lemma_chain_reads(r0, br, port.rx());
            assert(appended(t0, port.tx()) == acc_t + seq![PortByte::Command(0xAB)]);
            assert(reads_of(appended(r0, port.rx())) == acc_r + seq![0x00u8]);
        }
        let ghost acc_t = acc_t + seq![PortByte::Command(0xAB)];
        let ghost acc_r = acc_r + seq![0x00u8];
        if has2 {
            let ghost bt = port.tx();
            let ghost br = port.rx();
            match test_port2(port) {
                Ok(u) => {},
                Err(e) => {
                    proof {
                        lemma_appended_chain(t0, bt, port.tx());
                        lemma_chain_reads(r0, br, port.rx());
                        assert(appended(t0, port.tx()) == acc_t + seq![PortByte::Command(0xA9)]);
                        if e == DriverError::PortTimeout {
                            assert(appended(t0, port.tx()) =~= init_tx_through_probe(c, has2)
                                + seq![PortByte::Command(0xAB), PortByte::Command(0xA9)]);
                            assert(reads_of(appended(r0, port.rx()))
                                =~= init_reads_through_probe(drained, raw, probe) + seq![0x00u8]);
                            let bw = port.wx();
                            lemma_prefix_refl(bw);
                            lemma_timeout_evidence_chain(r0, br, port.rx(), w0, bw, port.wx());
                            assert(init_timeout(
                                appended(t0, port.tx()),
                                reads_of(appended(r0, port.rx())),
                                drained,
                                raw,
                                probe,
                                0,
                                Seq::<PortByte>::empty(),
                                Seq::<u8>::empty(),
                                Seq::<PortByte>::empty(),
                                Seq::<u8>::empty(),
                                false,
                                0,
                                0,
                                None,
                            ));
                            assert(init_timed_out(
                                appended(t0, port.tx()),
                                reads_of(appended(r0, port.rx())),
                            ));
                        } else {
                            let code = choose|cd: u8|
                                cd != 0x00 && e == DriverError::PortTestFailed(2, cd) && reads_of(
                                    appended(br, port.rx()),
                                ) == seq![cd];
                            assert(appended(t0, port.tx()) =~= init_tx_through_probe(c, has2)
                                + seq![PortByte::Command(0xAB), PortByte::Command(0xA9)]);
                            assert(reads_of(appended(r0, port.rx())) =~= init_reads_through_probe(
                                drained,
                                raw,
                                probe,
                            ) + seq![0x00u8, code]);
                            assert(init_port_test_failed(
                                appended(t0, port.tx()),
                                reads_of(appended(r0, port.rx())),
                                drained,
                                raw,
                                probe,
                                2,
                                code,
                            ));
                        }
                    }
                    return Err(e);
                },
            }
            proof {
                lemma_appended_chain(t0, bt, port.tx());
                lemma_chain_reads(r0, br, port.rx());
                assert(appended(t0, port.tx()) == acc_t + seq![PortByte::Command(0xA9)]);
                assert(reads_of(appended(r0, port.rx())) == acc_r + seq![0x00u8]);
            }
        }
        let ghost acc_t = acc_t + if_tx(has2, seq![PortByte::Command(0xA9)]);
        let ghost acc_r = acc_r + if_reads(has2, seq![0x00u8]);

        // Enable the present channels.
        let ghost bt = port.tx();
        enable_port1(port);
        proof {
            lemma_extend_concat(bt, seq![PortByte::Command(0xAE)]);
            lemma_appended_chain(t0, bt, port.tx());
        }
        let ghost acc_t = acc_t + seq![PortByte::Command(0xAE)];
        if has2 {
            let ghost bt = port.tx();
            enable_port2(port);
            proof {
                lemma_extend_concat(bt, seq![PortByte::Command(0xA8)]);
                lemma_appended_chain(t0, bt, port.tx());
            }
        }
        proof {
            assert(appended(t0, port.tx()) =~= init_tx_through_enable(c, has2));
            assert(reads_of(appended(r0, port.rx())) =~= init_reads_through_tests(
                drained,
                raw,
                probe,
                has2,
            ));
        }
        let ghost acc_t = init_tx_through_enable(c, has2);
        let ghost acc_r = init_reads_through_tests(drained, raw, probe, has2);

        // Reset the devices; a wrong answer on either present channel is
        // fatal.
        let ghost bt = port.tx();
        let ghost br = port.rx();
        let ghost bw = port.wx();
        match reset_dev(port, false) {
            Ok(u) => {},
            Err(e) => {
                proof {
                    lemma_appended_chain(t0, bt, port.tx());
                    lemma_chain_reads(r0, br, port.rx());
                    if e == DriverError::PortTimeout {
                        lemma_timeout_evidence_chain(r0, br, port.rx(), w0, bw, port.wx());
                        let tseg = appended(bt, port.tx());
                        let rseg = reads_of(appended(br, port.rx()));
                        if tseg == fwd_prefix(false) {
                            assert(appended(t0, port.tx()) =~= init_tx_through_enable(c, has2));
                            assert(reads_of(appended(r0, port.rx()))
                                =~= init_reads_through_tests(drained, raw, probe, has2));
                            assert(init_timeout(
                                appended(t0, port.tx()),
                                reads_of(appended(r0, port.rx())),
                                drained,
                                raw,
                                probe,
                                0,
                                Seq::<PortByte>::empty(),
                                Seq::<u8>::empty(),
                                Seq::<PortByte>::empty(),
                                Seq::<u8>::empty(),
                                false,
                                0,
                                0,
                                None,
                            ));
                        } else {
                            assert(appended(t0, port.tx()) =~= init_tx_through_enable(c, has2)
                                + seq![PortByte::Data(0xFF)]);
                            if rseg.len() == 0 {
                                assert(reads_of(appended(r0, port.rx()))
                                    =~= init_reads_through_tests(drained, raw, probe, has2));
                                assert(init_timeout(
                                    appended(t0, port.tx()),
                                    reads_of(appended(r0, port.rx())),
                                    drained,
                                    raw,
                                    probe,
                                    0,
                                    Seq::<PortByte>::empty(),
                                        Seq::<u8>::empty(),
                                        Seq::<PortByte>::empty(),
                                        Seq::<u8>::empty(),
                                    false,
                                    0,
                                    0,
                                    None,
                                ));
                            } else {
                                let av = rseg[0];
                                assert(rseg =~= seq![av]);
                                assert(reads_of(appended(r0, port.rx()))
                                    =~= init_reads_through_tests(drained, raw, probe, has2)
                                    + seq![av]);
                                assert(init_timeout(
                                    appended(t0, port.tx()),
                                    reads_of(appended(r0, port.rx())),
                                    drained,
                                    raw,
                                    probe,
                                    av,
                                    Seq::<PortByte>::empty(),
                                        Seq::<u8>::empty(),
                                        Seq::<PortByte>::empty(),
                                        Seq::<u8>::empty(),
                                    false,
                                    0,
                                    0,
                                    None,
                                ));
                            }
                        }
                        assert(init_timed_out(
                            appended(t0, port.tx()),
                            reads_of(appended(r0, port.rx())),
                        ));
                    } else {
                        let (a, b) = choose|a: u8, b: u8|
                            !(a == 0xFA && b == 0xAA) && reads_of(appended(br, port.rx())) == seq![
                                a,
                                b,
                            ];
                        assert(appended(t0, port.tx()) =~= acc_t + seq![PortByte::Data(0xFF)]);
                        assert(init_reset_failed(
                            appended(t0, port.tx()),
                            reads_of(appended(r0, port.rx())),
                            drained,
                            raw,
                            probe,
                            1,
                            a,
                            b,
                        ));
                    }
                }
                return Err(e);
            },
        }
        proof {
            lemma_appended_chain(t0, bt, port.tx());
            lemma_chain_reads(r0, br, port.rx());
            assert(appended(t0, port.tx()) =~= acc_t + seq![PortByte::Data(0xFF)]);
            assert(reads_of(appended(r0, port.rx())) == acc_r + seq![0xFAu8, 0xAAu8]);
            lemma_appended_chain(w0, bw, port.wx());
        }
        let ghost acc_t = acc_t + seq![PortByte::Data(0xFF)];
        let ghost acc_r = acc_r + seq![0xFAu8, 0xAAu8];
        if has2 {
            let ghost bt = port.tx();
            let ghost br = port.rx();
            let ghost bw = port.wx();
            match reset_dev(port, true) {
                Ok(u) => {},
                Err(e) => {
                    proof {
                        lemma_appended_chain(t0, bt, port.tx());
                        lemma_chain_reads(r0, br, port.rx());
                        if e == DriverError::PortTimeout {
                            lemma_timeout_evidence_chain(r0, br, port.rx(), w0, bw, port.wx());
                            let tseg = appended(bt, port.tx());
                            let rseg = reads_of(appended(br, port.rx()));
                            if tseg == fwd_prefix(true) {
                                assert(appended(t0, port.tx()) =~= init_tx_through_enable(c, has2)
                                    + seq![PortByte::Data(0xFF), PortByte::Command(0xD4)]);
                                assert(reads_of(appended(r0, port.rx()))
                                    =~= init_reads_through_tests(drained, raw, probe, has2)
                                    + seq![0xFAu8, 0xAAu8]);
                                assert(init_timeout(
                                    appended(t0, port.tx()),
                                    reads_of(appended(r0, port.rx())),
                                    drained,
                                    raw,
                                    probe,
                                    0,
                                    Seq::<PortByte>::empty(),
                                Seq::<u8>::empty(),
                                Seq::<PortByte>::empty(),
                                Seq::<u8>::empty(),
                                    false,
                                    0,
                                    0,
                                    None,
                                ));
                            } else {
                                assert(appended(t0, port.tx()) =~= init_tx_through_enable(c, has2)
                                    + seq![
                                    PortByte::Data(0xFF),
                                    PortByte::Command(0xD4),
                                    PortByte::Data(0xFF),
                                ]);
                                if rseg.len() == 0 {
                                    assert(reads_of(appended(r0, port.rx()))
                                        =~= init_reads_through_tests(drained, raw, probe, has2)
                                        + seq![0xFAu8, 0xAAu8]);
                                    assert(init_timeout(
                                        appended(t0, port.tx()),
                                        reads_of(appended(r0, port.rx())),
                                        drained,
                                        raw,
                                        probe,
                                        0,
                                        Seq::<PortByte>::empty(),
                                Seq::<u8>::empty(),
                                Seq::<PortByte>::empty(),
                                Seq::<u8>::empty(),
                                        false,
                                        0,
                                        0,
                                        None,
                                    ));
                                } else {
                                    let av = rseg[0];
                                    assert(rseg =~= seq![av]);
                                    assert(reads_of(appended(r0, port.rx()))
                                        =~= init_reads_through_tests(drained, raw, probe, has2)
                                        + seq![0xFAu8, 0xAAu8, av]);
                                    assert(init_timeout(
                                        appended(t0, port.tx()),
                                        reads_of(appended(r0, port.rx())),
                                        drained,
                                        raw,
                                        probe,
                                        av,
                                        Seq::<PortByte>::empty(),
                                Seq::<u8>::empty(),
                                Seq::<PortByte>::empty(),
                                Seq::<u8>::empty(),
                                        false,
                                        0,
                                        0,
                                        None,
                                    ));
                                }
                            }
                            assert(init_timed_out(
                                appended(t0, port.tx()),
                                reads_of(appended(r0, port.rx())),
                            ));
                        } else {
                            let (a, b) = choose|a: u8, b: u8|
                                !(a == 0xFA && b == 0xAA) && reads_of(appended(br, port.rx()))
                                    == seq![a, b];
                            assert(appended(t0, port.tx()) =~= init_tx_through_enable(c, has2)
                                + seq![
                                PortByte::Data(0xFF),
                                PortByte::Command(0xD4),
                                PortByte::Data(0xFF),
                            ]);
                            assert(reads_of(appended(r0, port.rx()))
                                =~= init_reads_through_tests(drained, raw, probe, has2) + seq![
                                0xFAu8,
                                0xAAu8,
                                a,
                                b,
                            ]);
                            assert(init_reset_failed(
                                appended(t0, port.tx()),
                                reads_of(appended(r0, port.rx())),
                                drained,
                                raw,
                                probe,
                                2,
                                a,
                                b,
                            ));
                        }
                    }
                    return Err(e);
                },
            }
            proof {
                lemma_appended_chain(t0, bt, port.tx());
                lemma_chain_reads(r0, br, port.rx());
                assert(appended(t0, port.tx()) == acc_t + (seq![
                    PortByte::Command(0xD4),
                    PortByte::Data(0xFF),
                ]));
                assert(reads_of(appended(r0, port.rx())) == acc_r + seq![0xFAu8, 0xAAu8]);
                lemma_appended_chain(w0, bw, port.wx());
            }
        }
        let ghost acc_t = acc_t + if_tx(has2, seq![PortByte::Command(0xD4), PortByte::Data(0xFF)]);
        let ghost acc_r = acc_r + if_reads(has2, seq![0xFAu8, 0xAAu8]);
        proof {
            assert(appended(t0, port.tx()) =~= init_tx_through_resets(c, has2));
            assert(reads_of(appended(r0, port.rx())) =~= init_reads_through_resets(
                drained,
                raw,
                probe,
                has2,
            ));
        }
        let ghost acc_t = init_tx_through_resets(c, has2);
        let ghost acc_r = init_reads_through_resets(drained, raw, probe, has2);

        // Identify what each present channel carries.
        let ghost bt = port.tx();
        let ghost br = port.rx();
        let ghost bw = port.wx();
        let d1 = match get_dev_type(port, false) {
            Ok(d) => d,
            Err(e) => {
                proof {
                    lemma_appended_chain(t0, bt, port.tx());
                    lemma_chain_reads(r0, br, port.rx());
                    assert(e == DriverError::PortTimeout);
                    lemma_timeout_evidence_chain(r0, br, port.rx(), w0, bw, port.wx());
                    let t1p = appended(bt, port.tx());
                    let r1p = reads_of(appended(br, port.rx()));
                    let (retried, x, b1, b2) = choose|
                        retried: bool,
                        x: u8,
                        b1: u8,
                        b2: Option<u8>,
                    | identify_timeout(t1p, r1p, false, retried, x, b1, b2);
                    assert(init_timeout(
                        appended(t0, port.tx()),
                        reads_of(appended(r0, port.rx())),
                        drained,
                        raw,
                        probe,
                        0,
                        t1p,
                        r1p,
                        Seq::<PortByte>::empty(),
                        Seq::<u8>::empty(),
                        retried,
                        x,
                        b1,
                        b2,
                    ));
                    assert(init_timed_out(
                        appended(t0, port.tx()),
                        reads_of(appended(r0, port.rx())),
                    ));
                }
                return Err(e);
            },
        };
        let ghost gt1 = appended(bt, port.tx());
        let ghost gr1 = reads_of(appended(br, port.rx()));
        proof {
            lemma_appended_chain(t0, bt, port.tx());
            lemma_chain_reads(r0, br, port.rx());
            assert(appended(t0, port.tx()) == acc_t + gt1);
            assert(reads_of(appended(r0, port.rx())) == acc_r + gr1);
            lemma_appended_chain(w0, bw, port.wx());
        }
        let ghost acc_t = acc_t + gt1;
        let ghost acc_r = acc_r + gr1;
        let ghost mut gt2: Seq<PortByte> = Seq::empty();
        let ghost mut gr2: Seq<u8> = Seq::empty();
        if has2 {
            let ghost bt = port.tx();
            let ghost br = port.rx();
            let ghost bw = port.wx();
            let d2 = match get_dev_type(port, true) {
                Ok(d) => d,
                Err(e) => {
                    proof {
                        lemma_appended_chain(t0, bt, port.tx());
                        lemma_chain_reads(r0, br, port.rx());
                        assert(e == DriverError::PortTimeout);
                        lemma_timeout_evidence_chain(r0, br, port.rx(), w0, bw, port.wx());
                        let t2p = appended(bt, port.tx());
                        let r2p = reads_of(appended(br, port.rx()));
                        let (retried, x, b1, b2) = choose|
                            retried: bool,
                            x: u8,
                            b1: u8,
                            b2: Option<u8>,
                        | identify_timeout(t2p, r2p, true, retried, x, b1, b2);
                        assert(identify_post(gt1, gr1, false, Ok(d1)));
                        assert(appended(t0, port.tx()) =~= init_tx_through_resets(c, has2) + gt1
                            + t2p);
                        assert(reads_of(appended(r0, port.rx())) =~= init_reads_through_resets(
                            drained,
                            raw,
                            probe,
                            has2,
                        ) + gr1 + r2p);
                        assert(init_timeout(
                            appended(t0, port.tx()),
                            reads_of(appended(r0, port.rx())),
                            drained,
                            raw,
                            probe,
                            0,
                            gt1,
                            gr1,
                            t2p,
                            r2p,
                            retried,
                            x,
                            b1,
                            b2,
                        ));
                        assert(init_timed_out(
                            appended(t0, port.tx()),
                            reads_of(appended(r0, port.rx())),
                        ));
                    }
                    return Err(e);
                },
            };
            self.port2 = d2;
            proof {
                gt2 = appended(bt, port.tx());
                gr2 = reads_of(appended(br, port.rx()));
                lemma_appended_chain(t0, bt, port.tx());
                lemma_chain_reads(r0, br, port.rx());
                assert(appended(t0, port.tx()) == acc_t + gt2);
                assert(reads_of(appended(r0, port.rx())) == acc_r + gr2);
            }
        }
        let ghost acc_t = acc_t + if_tx(has2, gt2);
        let ghost acc_r = acc_r + if_reads(has2, gr2);

        // Commit the outcome.
        self.config = cfg;
        self.is_exists_port2 = has2;
        self.port1 = d1;
        proof {
            assert(appended(t0, port.tx()) =~= acc_t);
            assert(reads_of(appended(r0, port.rx())) =~= acc_r);
            assert(acc_t =~= init_tx_ok(c, has2, gt1, gt2));
            assert(acc_r =~= init_reads_ok(drained, raw, probe, has2, gr1, gr2));
            assert(init_success(
                appended(t0, port.tx()),
                reads_of(appended(r0, port.rx())),
                *old(self),
                *self,
                drained,
                raw,
                probe,
                gt1,
                gr1,
                gt2,
                gr2,
            ));
        }
        Ok(())
    }
}

impl Driver for I8042 {
    const DRIVER_NAME: &'static str = "i8042";

    fn probe(present: bool) -> Result<(), DriverError> {
        I8042::probe(present)
    }

    fn init<P: PortAccess>(&mut self, port: &mut P) -> Result<(), DriverError> {
        self.init(port)
    }

    fn remove(&mut self) {
        self.remove()
    }
}

} // verus!
