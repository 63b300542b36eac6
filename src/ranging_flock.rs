//! Coordinating several sensors that share one interrupt line.
//!
//! The coordinator owns no hardware. It decides, step by step, what its
//! driver does next: check one sensor for a new result, hand one queued
//! result to the caller, or wait for an edge on the shared line. The driver
//! performs the step and reports back what it found.
//!
//! Each call for the next result scans every sensor once, highest index
//! first, queueing the result of each ready one. It then delivers the most
//! recently queued result, or, when nothing is queued, waits for an edge of
//! either polarity and scans again.
use vstd::prelude::*;
use crate::results_data::{RawResults, ResultsData, TempC};

verus! {

/// A point in time, in ticks of the system timer.
#[derive(Clone, Copy, Debug, PartialEq, Eq, Structural)]
pub struct Instant {
    pub ticks: u64,
}

/// One delivered result: sensor index, decoded data, sensor temperature and
/// the time its readiness was seen.
pub type Reading<const DIM: usize, const TARGETS: usize> = (usize, ResultsData<DIM, TARGETS>, TempC, Instant);

/// What the driver of a [`RangingFlock`] does next.
#[derive(Debug)]
pub enum FlockStep<const DIM: usize, const TARGETS: usize> {
    /// Ask this sensor whether a new result is ready, then report with
    /// `record_ready` or `record_not_ready`.
    Check(usize),
    /// Hand this result to the caller: the call is complete.
    Deliver(Reading<DIM, TARGETS>),
    /// Nothing is queued: wait for an edge of either polarity on the
    /// interrupt line, then `begin_scan` again.
    Wait,
}

/// The queue after a scan reports `found` on one sensor: a found result is
/// queued while there is room for it.
pub open spec fn record_spec<E>(pending: Seq<E>, found: Option<E>, cap: nat) -> Seq<E> {
    match found {
        Some(e) => if pending.len() < cap {
            pending.push(e)
        } else {
            pending
        },
        None => pending,
    }
}

/// The queue after a scan that reports `found`, in scan order.
pub open spec fn scan_spec<E>(pending: Seq<E>, found: Seq<Option<E>>, cap: nat) -> Seq<E>
    decreases found.len(),
{
    if found.len() == 0 {
        pending
    } else {
        scan_spec(record_spec(pending, found[0], cap), found.drop_first(), cap)
    }
}

/// What successive calls deliver from `pending` while no sensor becomes
/// ready: one result per call, the most recently queued first.
pub open spec fn deliveries<E>(pending: Seq<E>) -> Seq<E>
    decreases pending.len(),
{
    if pending.len() == 0 {
        Seq::empty()
    } else {
        seq![pending.last()] + deliveries(pending.drop_last())
    }
}

/// A scan in which every sensor is found ready, with room for all of them,
/// queues each result in scan order.
proof fn lemma_scan_all_ready<E>(pending: Seq<E>, found: Seq<Option<E>>, cap: nat)
    requires
        pending.len() + found.len() <= cap,
        forall|i: int| 0 <= i < found.len() ==> (#[trigger] found[i]) is Some,
    ensures
        scan_spec(pending, found, cap) == pending + found.map_values(|f: Option<E>| f.unwrap()),
    decreases found.len(),
{
    let all = found.map_values(|f: Option<E>| f.unwrap());
    if found.len() == 0 {
        assert(pending + all =~= pending);
    } else {
        let next = record_spec(pending, found[0], cap);
        assert(next == pending.push(found[0].unwrap()));
        assert forall|i: int| 0 <= i < found.drop_first().len() implies (#[trigger] found.drop_first()[i]) is Some by {
            assert(found.drop_first()[i] == found[i + 1]);
        }
        lemma_scan_all_ready(next, found.drop_first(), cap);
        assert(next + found.drop_first().map_values(|f: Option<E>| f.unwrap()) =~= pending + all);
    }
}

/// A scan in which no sensor is ready leaves the queue as it was.
pub proof fn lemma_quiet_scan<E>(pending: Seq<E>, found: Seq<Option<E>>, cap: nat)
    requires
        forall|i: int| 0 <= i < found.len() ==> (#[trigger] found[i]) is None,
    ensures
        scan_spec(pending, found, cap) == pending,
    decreases found.len(),
{
    if found.len() > 0 {
        assert forall|i: int| 0 <= i < found.drop_first().len() implies (#[trigger] found.drop_first()[i]) is None by {
            assert(found.drop_first()[i] == found[i + 1]);
        }
        lemma_quiet_scan(pending, found.drop_first(), cap);
    }
}

/// Successive deliveries hand out the whole queue, last queued first.
pub proof fn lemma_deliveries_reverse<E>(pending: Seq<E>)
    ensures
        deliveries(pending).len() == pending.len(),
        forall|i: int| 0 <= i < pending.len() ==> #[trigger] deliveries(pending)[i] == pending[pending.len() - 1 - i],
    decreases pending.len(),
{
    if pending.len() > 0 {
        let rest = pending.drop_last();
        lemma_deliveries_reverse(rest);
        assert forall|i: int| 0 <= i < pending.len() implies #[trigger] deliveries(pending)[i] == pending[pending.len() - 1 - i] by {
            if i > 0 {
                assert(deliveries(pending)[i] == deliveries(rest)[i - 1]);
            }
        }
    }
}

/// When all `cap` sensors are found ready in one scan that starts with
/// nothing queued, the scan queues exactly `cap` results, one per sensor in
/// scan order, before any is delivered; and the calls that follow, while no
/// sensor becomes ready again, deliver exactly those `cap` results, the last
/// scanned first, before the coordinator next waits on the interrupt line:
/// each of those calls scans without finding anything, which leaves what is
/// still queued as it was.
pub proof fn lemma_all_ready_in_one_scan<E>(found: Seq<Option<E>>, cap: nat)
    requires
        found.len() == cap,
        forall|i: int| 0 <= i < found.len() ==> (#[trigger] found[i]) is Some,
    ensures
        scan_spec(Seq::<E>::empty(), found, cap).len() == cap,
        forall|i: int| 0 <= i < cap ==> #[trigger] scan_spec(Seq::<E>::empty(), found, cap)[i] == found[i].unwrap(),
        deliveries(scan_spec(Seq::<E>::empty(), found, cap)).len() == cap,
        forall|i: int| 0 <= i < cap ==> #[trigger] deliveries(scan_spec(Seq::<E>::empty(), found, cap))[i]
            == found[cap - 1 - i].unwrap(),
        forall|k: int, quiet: Seq<Option<E>>|
            0 <= k <= cap && (forall|i: int| 0 <= i < quiet.len() ==> (#[trigger] quiet[i]) is None) ==>
                #[trigger] scan_spec(scan_spec(Seq::<E>::empty(), found, cap).take(k), quiet, cap)
                    == scan_spec(Seq::<E>::empty(), found, cap).take(k),
{
    let q = scan_spec(Seq::<E>::empty(), found, cap);
    lemma_scan_all_ready(Seq::<E>::empty(), found, cap);
    assert(q =~= found.map_values(|f: Option<E>| f.unwrap()));
    lemma_deliveries_reverse(q);
    assert forall|k: int, quiet: Seq<Option<E>>|
        0 <= k <= cap && (forall|i: int| 0 <= i < quiet.len() ==> (#[trigger] quiet[i]) is None) implies
            #[trigger] scan_spec(q.take(k), quiet, cap) == q.take(k) by {
        lemma_quiet_scan(q.take(k), quiet, cap);
    }
}

/// Coordinator of `N` sensors of resolution `DIM` with `TARGETS` target
/// slots per zone.
pub struct RangingFlock<const N: usize, const DIM: usize, const TARGETS: usize> {
    pending: Vec<Reading<DIM, TARGETS>>,
    unscanned: usize,
}

impl<const N: usize, const DIM: usize, const TARGETS: usize> RangingFlock<N, DIM, TARGETS> {
    /// Results decoded but not yet delivered, in the order they were queued.
    pub closed spec fn pending(self) -> Seq<Reading<DIM, TARGETS>> {
        self.pending@
    }

    /// How many sensors the current scan has yet to check; the next one is
    /// sensor `unscanned() - 1`.
    pub closed spec fn unscanned(self) -> nat {
        self.unscanned as nat
    }

    /// A scan never has more than `N` sensors left, and the queue never
    /// holds more than `N` results.
    pub open spec fn wf(self) -> bool {
        &&& self.unscanned() <= N
        &&& self.pending().len() <= N
    }

    /// A coordinator with nothing queued and no scan under way.
    pub fn new() -> (r: Self)
        ensures
            r.wf(),
            r.pending() == Seq::<Reading<DIM, TARGETS>>::empty(),
            r.unscanned() == 0,
    {
        RangingFlock { pending: Vec::new(), unscanned: 0 }
    }

    /// Starts a scan of all sensors: at the start of each call for a
    /// result, and after each wake-up from the interrupt line.
    pub fn begin_scan(&mut self)
        requires
            old(self).wf(),
        ensures
            final(self).wf(),
            final(self).pending() == old(self).pending(),
            final(self).unscanned() == N,
    {
        self.unscanned = N;
    }

    /// The next step: check the next sensor of the scan; once the scan is
    /// done, deliver the most recently queued result, or wait when none is.
    pub fn next_step(&mut self) -> (s: FlockStep<DIM, TARGETS>)
        requires
            old(self).wf(),
        ensures
            final(self).wf(),
            old(self).unscanned() > 0 ==> {
                &&& s == FlockStep::<DIM, TARGETS>::Check((old(self).unscanned() - 1) as usize)
                &&& final(self).pending() == old(self).pending()
                &&& final(self).unscanned() == old(self).unscanned()
            },
            old(self).unscanned() == 0 && old(self).pending().len() > 0 ==> {
                &&& s == FlockStep::<DIM, TARGETS>::Deliver(old(self).pending().last())
                &&& final(self).pending() == old(self).pending().drop_last()
                &&& final(self).unscanned() == 0
            },
            old(self).unscanned() == 0 && old(self).pending().len() == 0 ==> {
                &&& s == FlockStep::<DIM, TARGETS>::Wait
                &&& final(self).pending() == old(self).pending()
                &&& final(self).unscanned() == 0
            },
    {
        if self.unscanned > 0 {
            return FlockStep::Check(self.unscanned - 1);
        }
        match self.pending.pop() {
            Some(reading) => FlockStep::Deliver(reading),
            None => FlockStep::Wait,
        }
    }

    /// Reports that the sensor last handed out by `Check` has no new result.
    pub fn record_not_ready(&mut self)
        requires
            old(self).wf(),
        ensures
            final(self).wf(),
            final(self).pending() == record_spec(old(self).pending(), None, N as nat),
            final(self).unscanned() == if old(self).unscanned() > 0 {
                (old(self).unscanned() - 1) as nat
            } else {
                0
            },
    {
        if self.unscanned > 0 {
            self.unscanned = self.unscanned - 1;
        }
    }

    /// Reports that the sensor last handed out by `Check` had a new result,
    /// fetched as `raw` right after `time_stamp` was taken. The result is
    /// decoded and queued; `false` when the queue already holds `N` results
    /// and the result had to be left out. Outside a scan nothing changes.
    pub fn record_ready(&mut self, raw: &RawResults, time_stamp: Instant) -> (queued: bool)
        requires
            old(self).wf(),
            ResultsData::<DIM, TARGETS>::decodable(*raw),
        ensures
            final(self).wf(),
            old(self).unscanned() == 0 ==> {
                &&& !queued
                &&& final(self).pending() == old(self).pending()
                &&& final(self).unscanned() == 0
            },
            old(self).unscanned() > 0 ==> {
                &&& final(self).unscanned() == old(self).unscanned() - 1
                &&& queued == (old(self).pending().len() < N)
                &&& exists|data: ResultsData<DIM, TARGETS>| {
                    &&& data.decoded_from(*raw)
                    &&& final(self).pending() == record_spec(
                        old(self).pending(),
                        Some(((old(self).unscanned() - 1) as usize, data, TempC(raw.silicon_temp_degc), time_stamp)),
                        N as nat,
                    )
                }
            },
    {
        if self.unscanned == 0 {
            return false;
        }
        let sensor: usize = self.unscanned - 1;
        self.unscanned = sensor;
        let (data, temp) = ResultsData::<DIM, TARGETS>::from(raw);
        if self.pending.len() < N {
            self.pending.push((sensor, data, temp, time_stamp));
            true
        } else {
            false
        }
    }

    /// Number of results queued and not yet delivered.
    pub fn pending_len(&self) -> (r: usize)
        ensures
            r == self.pending().len(),
    {
        self.pending.len()
    }

    /// Ends the session, consuming the coordinator; returns the results that
    /// were queued and never delivered, in the order they were queued.
    pub fn stop(self) -> (r: Vec<Reading<DIM, TARGETS>>)
        ensures
            r@ == self.pending(),
    {
        self.pending
    }
}

} // verus!
