//! Port access layer: the capability interface through which every byte
//! reaches the controller, and the bounded busy-wait discipline on top of
//! it.
//!
//! The two fixed hardware addresses are modelled by three histories: `tx`,
//! every byte the host wrote (command or data), `rx`, the outcome of every
//! non-blocking data read, and `wx`, the outcome of every data-write
//! offer.  Every contract of the protocol above is stated over what a call
//! appends to these histories, so an exhausted retry budget always leaves
//! its evidence: a full run of absent reads or refused offers.

use vstd::prelude::*;

use crate::error::DriverError;

verus! {

/// One byte as the host wrote it: to the command address or to the data
/// address.
#[derive(Clone, Copy, Debug, PartialEq, Eq)]
pub enum PortByte {
    /// A controller command byte.
    Command(u8),
    /// A data byte, for the controller's RAM or for a device.
    Data(u8),
}

/// How many times a blocking read or write polls before it reports the
/// peripheral unresponsive.  The boot environment has no timer yet, so this
/// coarse bound stands in for a real timeout.
pub const RETRY_BUDGET: usize = 10;

/// What a later history adds over an earlier one.
pub open spec fn appended<T>(pre: Seq<T>, post: Seq<T>) -> Seq<T> {
    post.skip(pre.len() as int)
}

/// The bytes actually delivered by a stretch of read outcomes, in order.
pub open spec fn reads_of(d: Seq<Option<u8>>) -> Seq<u8>
    decreases d.len(),
{
    if d.len() == 0 {
        Seq::empty()
    } else {
        match d[0] {
            Option::Some(v) => seq![v] + reads_of(d.skip(1)),
            Option::None => reads_of(d.skip(1)),
        }
    }
}

/// The bytes delivered by one read outcome: one byte or none.
pub open spec fn opt_seq(b: Option<u8>) -> Seq<u8> {
    match b {
        Option::Some(v) => seq![v],
        Option::None => Seq::<u8>::empty(),
    }
}

/// A single read outcome delivers exactly what it carries.
pub proof fn lemma_reads_of_single(x: Option<u8>)
    ensures
        reads_of(seq![x]) == opt_seq(x),
{
    let s = seq![x];
    assert(s.skip(1) =~= Seq::<Option<u8>>::empty());
    assert(reads_of(s.skip(1)) == Seq::<u8>::empty());
    match x {
        Option::Some(v) => {
            assert(reads_of(s) =~= seq![v]);
        },
        Option::None => {},
    }
}

/// A read stretch that delivered `v`: a run of absent outcomes within the
/// retry budget, closed by the delivered byte.
pub open spec fn delivery(d: Seq<Option<u8>>, v: u8) -> bool {
    1 <= d.len() <= RETRY_BUDGET && d.last() == Some(v) && (forall|i: int|
        0 <= i < d.len() - 1 ==> d[i] is None)
}

/// A read stretch that exhausted the retry budget: exactly the budget of
/// attempts, every one absent.
pub open spec fn exhausted_reads(d: Seq<Option<u8>>) -> bool {
    d.len() == RETRY_BUDGET && (forall|i: int| 0 <= i < d.len() ==> d[i] is None)
}

/// A write stretch whose byte went through: a run of refused offers within
/// the retry budget, closed by the accepted one.
pub open spec fn accepted_last(w: Seq<bool>) -> bool {
    1 <= w.len() <= RETRY_BUDGET && w.last() == true && (forall|i: int|
        0 <= i < w.len() - 1 ==> !w[i])
}

/// A write stretch that exhausted the retry budget: exactly the budget of
/// offers, every one refused.
pub open spec fn exhausted_writes(w: Seq<bool>) -> bool {
    w.len() == RETRY_BUDGET && (forall|i: int| 0 <= i < w.len() ==> !w[i])
}

/// The trace an exhausted retry budget leaves at the end of the histories:
/// a full budget of absent reads, of delivered reads (a buffer that never
/// came empty while being flushed), or of refused write offers.
pub open spec fn timeout_evidence(d: Seq<Option<u8>>, w: Seq<bool>) -> bool {
    (d.len() >= RETRY_BUDGET && (forall|i: int|
        d.len() - RETRY_BUDGET <= i < d.len() ==> d[i] is None)) || (d.len() >= RETRY_BUDGET && (
    forall|i: int| d.len() - RETRY_BUDGET <= i < d.len() ==> d[i] is Some)) || (w.len()
        >= RETRY_BUDGET && (forall|i: int| w.len() - RETRY_BUDGET <= i < w.len() ==> !w[i]))
}

/// A property of the last `k` elements survives prepending a stretch.
pub proof fn lemma_suffix_all<T>(a: Seq<T>, b: Seq<T>, p: spec_fn(T) -> bool, k: int)
    requires
        0 <= k <= b.len(),
        forall|i: int| b.len() - k <= i < b.len() ==> p(b[i]),
    ensures
        forall|i: int| (a + b).len() - k <= i < (a + b).len() ==> p(#[trigger] (a + b)[i]),
{
    assert forall|i: int| (a + b).len() - k <= i < (a + b).len() implies p(#[trigger] (a + b)[i]) by {
        assert((a + b)[i] == b[i - a.len()]);
    }
}

/// Exhaustion evidence at the end of a later stretch is evidence at the
/// end of the whole grown histories.
pub proof fn lemma_timeout_evidence_chain(
    d0: Seq<Option<u8>>,
    d1: Seq<Option<u8>>,
    d2: Seq<Option<u8>>,
    w0: Seq<bool>,
    w1: Seq<bool>,
    w2: Seq<bool>,
)
    requires
        d0.is_prefix_of(d1),
        d1.is_prefix_of(d2),
        w0.is_prefix_of(w1),
        w1.is_prefix_of(w2),
        timeout_evidence(appended(d1, d2), appended(w1, w2)),
    ensures
        timeout_evidence(appended(d0, d2), appended(w0, w2)),
{
    lemma_appended_chain(d0, d1, d2);
    lemma_appended_chain(w0, w1, w2);
    let db = appended(d1, d2);
    let wb = appended(w1, w2);
    if db.len() >= RETRY_BUDGET && (forall|i: int|
        db.len() - RETRY_BUDGET <= i < db.len() ==> db[i] is None) {
        lemma_suffix_all(
            appended(d0, d1),
            db,
            |x: Option<u8>| x is None,
            RETRY_BUDGET as int,
        );
    } else if db.len() >= RETRY_BUDGET && (forall|i: int|
        db.len() - RETRY_BUDGET <= i < db.len() ==> db[i] is Some) {
        lemma_suffix_all(
            appended(d0, d1),
            db,
            |x: Option<u8>| x is Some,
            RETRY_BUDGET as int,
        );
    } else {
        lemma_suffix_all(appended(w0, w1), wb, |x: bool| !x, RETRY_BUDGET as int);
    }
}

/// A stretch delivers at most as many bytes as it has outcomes.
pub proof fn lemma_reads_of_len(d: Seq<Option<u8>>)
    ensures
        reads_of(d).len() <= d.len(),
    decreases d.len(),
{
    if d.len() > 0 {
        lemma_reads_of_len(d.skip(1));
    }
}

/// A stretch of delivered outcomes delivers one byte per outcome.
pub proof fn lemma_reads_of_all_some(d: Seq<Option<u8>>)
    requires
        forall|i: int| 0 <= i < d.len() ==> d[i] is Some,
    ensures
        reads_of(d).len() == d.len(),
    decreases d.len(),
{
    if d.len() > 0 {
        lemma_reads_of_all_some(d.skip(1));
    }
}

/// A stretch closed by an absent outcome delivers fewer bytes than it has
/// outcomes.
pub proof fn lemma_drain_count(d: Seq<Option<u8>>)
    requires
        d.len() >= 1,
        d.last() is None,
    ensures
        reads_of(d).len() <= d.len() - 1,
{
    let front = d.take(d.len() - 1);
    lemma_reads_of_concat(front, seq![d.last()]);
    assert(front + seq![d.last()] =~= d);
    lemma_reads_of_single(d.last());
    lemma_reads_of_len(front);
    assert(reads_of(d) == reads_of(front) + reads_of(seq![d.last()]));
}

/// Growing a history by one element keeps every earlier prefix and extends
/// the added stretch by that element.
pub proof fn lemma_appended_push<T>(a: Seq<T>, b: Seq<T>, x: T)
    requires
        a.is_prefix_of(b),
    ensures
        a.is_prefix_of(b.push(x)),
        appended(a, b.push(x)) == appended(a, b).push(x),
{
    assert(a =~= b.push(x).subrange(0, a.len() as int));
    assert(appended(a, b.push(x)) =~= appended(a, b).push(x));
}

/// A history that grew twice grew once, by the two stretches in order.
pub proof fn lemma_appended_chain<T>(a: Seq<T>, b: Seq<T>, c: Seq<T>)
    requires
        a.is_prefix_of(b),
        b.is_prefix_of(c),
    ensures
        a.is_prefix_of(c),
        appended(a, c) == appended(a, b) + appended(b, c),
{
    assert(a =~= c.subrange(0, a.len() as int));
    assert(appended(a, c) =~= appended(a, b) + appended(b, c));
}

/// Delivered bytes distribute over concatenation of read stretches.
pub proof fn lemma_reads_of_concat(a: Seq<Option<u8>>, b: Seq<Option<u8>>)
    ensures
        reads_of(a + b) == reads_of(a) + reads_of(b),
    decreases a.len(),
{
    if a.len() == 0 {
        assert(a + b =~= b);
        assert(reads_of(a) + reads_of(b) =~= reads_of(b));
    } else {
        lemma_reads_of_concat(a.skip(1), b);
        assert((a + b).skip(1) =~= a.skip(1) + b);
        match a[0] {
            Option::Some(v) => {
                assert(seq![v] + (reads_of(a.skip(1)) + reads_of(b)) =~= (seq![v] + reads_of(
                    a.skip(1),
                )) + reads_of(b));
            },
            Option::None => {},
        }
    }
}

/// A stretch of absent outcomes delivers nothing.
pub proof fn lemma_reads_of_none(d: Seq<Option<u8>>)
    requires
        forall|i: int| 0 <= i < d.len() ==> d[i] is None,
    ensures
        reads_of(d) == Seq::<u8>::empty(),
    decreases d.len(),
{
    if d.len() > 0 {
        lemma_reads_of_none(d.skip(1));
    }
}

/// A stretch of absent outcomes closed by one delivered byte delivers
/// exactly that byte.
pub proof fn lemma_reads_of_one(d: Seq<Option<u8>>, v: u8)
    requires
        d.len() >= 1,
        d.last() == Some(v),
        forall|i: int| 0 <= i < d.len() - 1 ==> d[i] is None,
    ensures
        reads_of(d) == seq![v],
{
    let front = d.take(d.len() - 1);
    lemma_reads_of_none(front);
    lemma_reads_of_concat(front, seq![Some(v)]);
    assert(front + seq![Some(v)] =~= d);
    let one = seq![Some(v)];
    assert(one.skip(1) =~= Seq::<Option<u8>>::empty());
    assert(reads_of(one.skip(1)) == Seq::<u8>::empty());
    assert(reads_of(one) == seq![v] + reads_of(one.skip(1)));
    assert(reads_of(front) + reads_of(one) =~= seq![v]);
}

/// The capability interface over the two fixed hardware addresses.  An
/// implementation must only deliver a data byte while the status register
/// reports the output buffer full, and must only accept a data byte while
/// it reports the input buffer clear; the histories record what happened
/// either way.
pub trait PortAccess: Sized {
    /// Every byte the host has written so far, in order.  An
    /// implementation that the verifier reads overrides this with its own
    /// record; one outside the verifier inherits the trivial history.
    open spec fn tx(&self) -> Seq<PortByte> {
        Seq::<PortByte>::empty()
    }

    /// The outcome of every non-blocking data read so far, in order.  An
    /// implementation that the verifier reads overrides this with its own
    /// record; one outside the verifier inherits the trivial history.
    open spec fn rx(&self) -> Seq<Option<u8>> {
        Seq::<Option<u8>>::empty()
    }

    /// The outcome of every data-write offer so far, in order: whether the
    /// controller accepted the byte.  An implementation that the verifier
    /// reads overrides this with its own record; one outside the verifier
    /// inherits the trivial history.
    open spec fn wx(&self) -> Seq<bool> {
        Seq::<bool>::empty()
    }

    /// Writes one byte to the command address.
    fn write_command(&mut self, value: u8)
        ensures
            final(self).tx() == old(self).tx().push(PortByte::Command(value)),
            final(self).rx() == old(self).rx(),
            final(self).wx() == old(self).wx(),
    ;

    /// Offers one byte to the data address; the controller may refuse it
    /// while its input buffer is full.
    fn try_write_data(&mut self, value: u8) -> (accepted: bool)
        ensures
            final(self).rx() == old(self).rx(),
            final(self).wx() == old(self).wx().push(accepted),
            accepted ==> final(self).tx() == old(self).tx().push(PortByte::Data(value)),
            !accepted ==> final(self).tx() == old(self).tx(),
    ;

    /// Samples the data address once; absent while the output buffer is
    /// empty.
    fn try_read_data(&mut self) -> (r: Option<u8>)
        ensures
            final(self).tx() == old(self).tx(),
            final(self).rx() == old(self).rx().push(r),
            final(self).wx() == old(self).wx(),
    ;
}

/// Polls the data address until a byte arrives, giving up after
/// [`RETRY_BUDGET`] attempts.  On success the read stretch is a run of
/// absent outcomes closed by the delivered byte; on timeout it is exactly
/// [`RETRY_BUDGET`] absent outcomes.
pub fn read_data_blocking<P: PortAccess>(port: &mut P) -> (r: Result<u8, DriverError>)
    ensures
        final(port).tx() == old(port).tx(),
        final(port).wx() == old(port).wx(),
        old(port).rx().is_prefix_of(final(port).rx()),
        ({
            let d = appended(old(port).rx(), final(port).rx());
            match r {
                Ok(v) => delivery(d, v) && reads_of(d) == seq![v],
                Err(e) => e == DriverError::PortTimeout && exhausted_reads(d) && reads_of(d)
                    == Seq::<u8>::empty(),
            }
        }),
{
    let mut attempts: usize = 0;
    while attempts < RETRY_BUDGET
        invariant
            attempts <= RETRY_BUDGET,
            port.tx() == old(port).tx(),
            port.wx() == old(port).wx(),
            old(port).rx().is_prefix_of(port.rx()),
            appended(old(port).rx(), port.rx()).len() == attempts,
            forall|i: int| 0 <= i < attempts ==> appended(old(port).rx(), port.rx())[i] is None,
        decreases RETRY_BUDGET - attempts,
    {
        let ghost pre = port.rx();
        let got = port.try_read_data();
        proof {
            lemma_appended_push(old(port).rx(), pre, got);
        }
        attempts = attempts + 1;
        if let Some(v) = got {
            proof {
                lemma_reads_of_one(appended(old(port).rx(), port.rx()), v);
            }
            return Ok(v);
        }
    }
    proof {
        lemma_reads_of_none(appended(old(port).rx(), port.rx()));
    }
    Err(DriverError::PortTimeout)
}

/// Offers a byte to the data address until the controller accepts it,
/// giving up after [`RETRY_BUDGET`] attempts.  On success the offer
/// stretch is a run of refusals closed by the accepted offer, and exactly
/// the offered byte was written, once, immediately after the accepting
/// poll; on timeout it is exactly [`RETRY_BUDGET`] refusals and nothing
/// was written.
pub fn write_data_blocking<P: PortAccess>(port: &mut P, value: u8) -> (r: Result<(), DriverError>)
    ensures
        final(port).rx() == old(port).rx(),
        old(port).wx().is_prefix_of(final(port).wx()),
        ({
            let w = appended(old(port).wx(), final(port).wx());
            match r {
                Ok(u) => accepted_last(w) && final(port).tx() == old(port).tx().push(
                    PortByte::Data(value),
                ),
                Err(e) => e == DriverError::PortTimeout && exhausted_writes(w) && final(port).tx()
                    == old(port).tx(),
            }
        }),
{
    let mut attempts: usize = 0;
    while attempts < RETRY_BUDGET
        invariant
            attempts <= RETRY_BUDGET,
            port.tx() == old(port).tx(),
            port.rx() == old(port).rx(),
            old(port).wx().is_prefix_of(port.wx()),
            appended(old(port).wx(), port.wx()).len() == attempts,
            forall|i: int| 0 <= i < attempts ==> !appended(old(port).wx(), port.wx())[i],
        decreases RETRY_BUDGET - attempts,
    {
        let ghost pre = port.wx();
        let accepted = port.try_write_data(value);
        proof {
            lemma_appended_push(old(port).wx(), pre, accepted);
        }
        attempts = attempts + 1;
        if accepted {
            return Ok(());
        }
    }
    Err(DriverError::PortTimeout)
}

/// Flushes stale bytes out of the output buffer: samples the data address
/// until it reads absent, giving up after [`RETRY_BUDGET`] delivered bytes
/// if the controller keeps the buffer full.  The read stretch is a run of
/// delivered bytes closed by one absent outcome; on timeout it is exactly
/// [`RETRY_BUDGET`] delivered bytes.
pub fn drain_output_buffer<P: PortAccess>(port: &mut P) -> (r: Result<(), DriverError>)
    ensures
        final(port).tx() == old(port).tx(),
        final(port).wx() == old(port).wx(),
        old(port).rx().is_prefix_of(final(port).rx()),
        ({
            let d = appended(old(port).rx(), final(port).rx());
            match r {
                Ok(u) => 1 <= d.len() <= RETRY_BUDGET + 1 && d.last() is None && (forall|i: int|
                    0 <= i < d.len() - 1 ==> d[i] is Some),
                Err(e) => e == DriverError::PortTimeout && d.len() == RETRY_BUDGET && (forall|
                    i: int,
                |
                    0 <= i < d.len() ==> d[i] is Some),
            }
        }),
{
    let mut drained: usize = 0;
    while drained < RETRY_BUDGET
        invariant
            drained <= RETRY_BUDGET,
            port.tx() == old(port).tx(),
            port.wx() == old(port).wx(),
            old(port).rx().is_prefix_of(port.rx()),
            appended(old(port).rx(), port.rx()).len() == drained,
            forall|i: int| 0 <= i < drained ==> appended(old(port).rx(), port.rx())[i] is Some,
        decreases RETRY_BUDGET - drained,
    {
        let ghost pre = port.rx();
        let got = port.try_read_data();
        proof {
            lemma_appended_push(old(port).rx(), pre, got);
        }
        if got.is_none() {
            return Ok(());
        }
        drained = drained + 1;
    }
    Err(DriverError::PortTimeout)
}


} // verus!
