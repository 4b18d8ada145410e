use vstd::prelude::*;
use crate::flow_key::{FlowKey, FlowKeyView, key_between};
use crate::packet::{
    Headers,
    Network,
    Transport,
    TcpSegment,
    classify,
    decode_ethernet,
    decoded_headers,
    is_end,
    is_start,
};
use crate::statistics::{Statistics, StatisticsError, sorted_permutation, stats_of};
use crate::tracker::{Sample, TraceError, Tracker, end_outcome, pending_after_end};

verus! {

/// The port whose connections are read as one request each, unless another
/// is configured.
pub const INTERACTIVE_PORT: u16 = 8080;

pub const NANOS_PER_SEC: u64 = 1_000_000_000;

pub const NANOS_PER_MICRO: u64 = 1_000;

/// One retained request, in microseconds: when it ended (since the epoch)
/// and how long it took.
#[derive(Clone, Copy, Debug, PartialEq, Eq)]
pub struct LatencyRecord {
    pub time_micro: u64,
    pub request_duration_micro: u64,
}

#[derive(Clone, Copy, Debug, PartialEq, Eq)]
pub struct StatisticsResults {
    pub latency: Statistics,
}

/// The latency series of the measurement window and its statistics.
#[derive(Debug)]
pub struct Results {
    pub latency: Vec<LatencyRecord>,
    pub statistics: StatisticsResults,
}

/// What became of one captured packet that did not stop the run.
#[derive(Clone, Copy, Debug, PartialEq, Eq)]
pub enum Observed {
    /// It came before the end of the leading offset and was not read.
    BeforeWindow,
    /// Its headers could not be decoded; it was skipped.
    Malformed,
    /// It was read, and completed the request given, if any.
    Decoded(Option<Sample>),
}

proof fn lemma_seconds_fit(secs: u64)
    ensures
        0 <= secs as int * NANOS_PER_SEC as int <= u128::MAX,
{
    assert(0 <= secs as int * NANOS_PER_SEC as int <= u128::MAX) by (nonlinear_arith)
        requires
            secs <= u64::MAX,
    ;
}

/// The pending requests once a start in `tcp` on `key`, if it is one, has
/// been recorded.
pub open spec fn pending_after_start(
    pending: Map<FlowKeyView, u64>,
    port: u16,
    time: u64,
    key: FlowKey,
    tcp: TcpSegment,
) -> Map<FlowKeyView, u64> {
    if is_start(port, tcp) {
        pending.insert(key@, time)
    } else {
        pending
    }
}

/// What reading the decoded headers `h` of a packet captured at `time` yields.
pub open spec fn handle_outcome(
    pending: Map<FlowKeyView, u64>,
    port: u16,
    time: u64,
    h: Headers,
) -> Result<Option<Sample>, TraceError> {
    match h.network {
        Network::Ipv4 => Err(TraceError::UnsupportedNetwork),
        Network::Absent => Ok(None),
        Network::Ipv6 { source, destination } => match h.transport {
            Transport::Tcp(t) => {
                let key = key_between(source, destination, t.source_port, t.destination_port);
                if is_end(port, t) {
                    end_outcome(pending_after_start(pending, port, time, key, t), key, time)
                } else {
                    Ok(None)
                }
            },
            _ => Ok(None),
        },
    }
}

/// The pending requests after reading the decoded headers `h` of a packet
/// captured at `time`.
pub open spec fn pending_after_handle(
    pending: Map<FlowKeyView, u64>,
    port: u16,
    time: u64,
    h: Headers,
) -> Map<FlowKeyView, u64> {
    match h.network {
        Network::Ipv6 { source, destination } => match h.transport {
            Transport::Tcp(t) => {
                let key = key_between(source, destination, t.source_port, t.destination_port);
                let p = pending_after_start(pending, port, time, key, t);
                if is_end(port, t) {
                    pending_after_end(p, key, time)
                } else {
                    p
                }
            },
            _ => pending,
        },
        _ => pending,
    }
}

/// The samples after one more outcome.
pub open spec fn samples_after(samples: Seq<Sample>, r: Result<Option<Sample>, TraceError>) -> Seq<
    Sample,
> {
    match r {
        Ok(Some(s)) => samples.push(s),
        _ => samples,
    }
}

/// A sample is kept when it ended more than `trailing_offset` seconds
/// before the end of the capture.
pub open spec fn retained(s: Sample, end_time: u64, trailing_offset: u64) -> bool {
    end_time as int - s.time as int > trailing_offset as int * NANOS_PER_SEC as int
}

pub open spec fn record_of(s: Sample) -> LatencyRecord {
    LatencyRecord {
        time_micro: s.time / NANOS_PER_MICRO,
        request_duration_micro: s.duration / NANOS_PER_MICRO,
    }
}

/// The records of the samples that the window keeps, in sample order.
pub open spec fn window(samples: Seq<Sample>, end_time: u64, trailing_offset: u64) -> Seq<
    LatencyRecord,
>
    decreases samples.len(),
{
    if samples.len() == 0 {
        Seq::empty()
    } else {
        let rest = window(samples.drop_last(), end_time, trailing_offset);
        if retained(samples.last(), end_time, trailing_offset) {
            rest.push(record_of(samples.last()))
        } else {
            rest
        }
    }
}

pub open spec fn durations_of(records: Seq<LatencyRecord>) -> Seq<u64> {
    records.map_values(|r: LatencyRecord| r.request_duration_micro)
}

/// Keeps the samples that ended more than `trailing_offset` seconds before
/// `end_time`, as records in microseconds.
pub fn window_filter(samples: &Vec<Sample>, end_time: u64, trailing_offset: u64) -> (r: Vec<
    LatencyRecord,
>)
    ensures
        r@ == window(samples@, end_time, trailing_offset),
{
    let mut out: Vec<LatencyRecord> = Vec::new();
    proof {
        lemma_seconds_fit(trailing_offset);
    }
    let bound: u128 = (trailing_offset as u128) * (NANOS_PER_SEC as u128);
    let mut i: usize = 0;
    while i < samples.len()
        invariant
            0 <= i <= samples.len(),
            bound == trailing_offset as int * NANOS_PER_SEC as int,
            out@ == window(samples@.take(i as int), end_time, trailing_offset),
        decreases samples.len() - i,
    {
        let s = samples[i];
        proof {
            assert(samples@.take(i as int + 1).drop_last() =~= samples@.take(i as int));
        }
        if end_time > s.time && ((end_time - s.time) as u128) > bound {
            out.push(
                LatencyRecord {
                    time_micro: s.time / NANOS_PER_MICRO,
                    request_duration_micro: s.duration / NANOS_PER_MICRO,
                },
            );
        }
        i += 1;
    }
    assert(samples@.take(samples.len() as int) =~= samples@);
    out
}

/// The durations of the records, in order.
pub fn durations(records: &Vec<LatencyRecord>) -> (r: Vec<u64>)
    ensures
        r@ == durations_of(records@),
{
    let mut out: Vec<u64> = Vec::new();
    let mut i: usize = 0;
    while i < records.len()
        invariant
            0 <= i <= records.len(),
            out@ == durations_of(records@.take(i as int)),
        decreases records.len() - i,
    {
        out.push(records[i].request_duration_micro);
        proof {
            assert(durations_of(records@.take(i as int + 1)) =~= durations_of(
                records@.take(i as int),
            ).push(records@[i as int].request_duration_micro));
        }
        i += 1;
    }
    assert(records@.take(records.len() as int) =~= records@);
    out
}

/// The state of one pass over a capture: the bounds of the capture seen so
/// far, the requests still pending and the samples produced.
pub struct Analyzer {
    port: u16,
    leading_offset: u64,
    start_time: Option<u64>,
    end_time: u64,
    tracker: Tracker,
    samples: Vec<Sample>,
}

impl Analyzer {
    pub closed spec fn wf(&self) -> bool {
        self.tracker.wf()
    }

    /// The interactive port.
    pub closed spec fn port(&self) -> u16 {
        self.port
    }

    /// Packets captured within this many seconds of the start of the capture
    /// are not read.
    pub closed spec fn leading_offset(&self) -> u64 {
        self.leading_offset
    }

    /// The earliest capture time seen, in nanoseconds since the epoch.
    pub closed spec fn start_time(&self) -> Option<u64> {
        self.start_time
    }

    /// The latest capture time of a packet that was read, or zero.
    pub closed spec fn end_time(&self) -> u64 {
        self.end_time
    }

    pub closed spec fn pending(&self) -> Map<FlowKeyView, u64> {
        self.tracker@
    }

    pub closed spec fn samples(&self) -> Seq<Sample> {
        self.samples@
    }

    /// A fresh pass pairing requests on `port` that skips the first
    /// `leading_offset` seconds of the capture.
    pub fn new(port: u16, leading_offset: u64) -> (r: Analyzer)
        ensures
            r.wf(),
            r.port() == port,
            r.leading_offset() == leading_offset,
            r.start_time() is None,
            r.end_time() == 0,
            r.pending() == Map::<FlowKeyView, u64>::empty(),
            r.samples() == Seq::<Sample>::empty(),
    {
        Analyzer {
            port,
            leading_offset,
            start_time: None,
            end_time: 0,
            tracker: Tracker::new(),
            samples: Vec::new(),
        }
    }

    /// The end of the capture as seen so far, in nanoseconds since the epoch.
    pub fn capture_end(&self) -> (r: u64)
        ensures
            r == self.end_time(),
    {
        self.end_time
    }

    /// The samples produced so far, in the order their requests ended.
    pub fn latency_samples(&self) -> (r: &Vec<Sample>)
        ensures
            r@ == self.samples(),
    {
        &self.samples
    }

    /// Takes the capture time of a packet into the bounds of the capture.
    /// The start moves back to any earlier time (the clock may have been
    /// set back); the packet is read only once the leading offset has passed
    /// since that start, and only then does it move the end forward.
    pub fn note_time(&mut self, time: u64) -> (kept: bool)
        ensures
            final(self).start_time() == Some(
                match old(self).start_time() {
                    Some(s) => if time < s { time } else { s },
                    None => time,
                },
            ),
            kept == (time as int - final(self).start_time().unwrap() as int >= old(
                self,
            ).leading_offset() as int * NANOS_PER_SEC as int),
            final(self).end_time() == if kept && time > old(self).end_time() {
                time
            } else {
                old(self).end_time()
            },
            final(self).port() == old(self).port(),
            final(self).leading_offset() == old(self).leading_offset(),
            final(self).pending() == old(self).pending(),
            final(self).samples() == old(self).samples(),
            final(self).wf() == old(self).wf(),
    {
        let start = match self.start_time {
            Some(s) => if time < s { time } else { s },
            None => time,
        };
        self.start_time = Some(start);
        proof {
            lemma_seconds_fit(self.leading_offset);
        }
        let kept = ((time - start) as u128) >= (self.leading_offset as u128) * (
        NANOS_PER_SEC as u128);
        if kept && time > self.end_time {
            self.end_time = time;
        }
        kept
    }

    /// Reads the decoded headers of a packet captured at `time`: an IPv4
    /// packet stops the run; a TCP segment over IPv6 may start a request,
    /// end one, or both, in that order.
    pub fn handle(&mut self, time: u64, h: &Headers) -> (r: Result<Option<Sample>, TraceError>)
        requires
            old(self).wf(),
        ensures
            final(self).wf(),
            r == handle_outcome(old(self).pending(), old(self).port(), time, *h),
            final(self).pending() == pending_after_handle(
                old(self).pending(),
                old(self).port(),
                time,
                *h,
            ),
            final(self).samples() == samples_after(old(self).samples(), r),
            final(self).port() == old(self).port(),
            final(self).leading_offset() == old(self).leading_offset(),
            final(self).start_time() == old(self).start_time(),
            final(self).end_time() == old(self).end_time(),
    {
        match h.network {
            Network::Ipv4 => Err(TraceError::UnsupportedNetwork),
            Network::Absent => Ok(None),
            Network::Ipv6 { source, destination } => match h.transport {
                Transport::Tcp(t) => {
                    let key = FlowKey::new(source, destination, t.source_port, t.destination_port);
                    let events = classify(self.port, &t);
                    if events.start {
                        self.tracker.on_start(key, time);
                    }
                    if events.end {
                        let r = self.tracker.on_end(key, time);
                        if let Ok(Some(s)) = r {
                            self.samples.push(s);
                        }
                        r
                    } else {
                        Ok(None)
                    }
                },
                _ => Ok(None),
            },
        }
    }

    /// Reads one captured Ethernet frame: notes its time, and decodes and
    /// handles it when it falls after the leading offset.
    pub fn observe(&mut self, time: u64, data: &[u8]) -> (r: Result<Observed, TraceError>)
        requires
            old(self).wf(),
        ensures
            final(self).wf(),
            final(self).start_time() == Some(
                match old(self).start_time() {
                    Some(s) => if time < s { time } else { s },
                    None => time,
                },
            ),
            ({
                let kept = time as int - final(self).start_time().unwrap() as int >= old(
                    self,
                ).leading_offset() as int * NANOS_PER_SEC as int;
                &&& final(self).end_time() == if kept && time > old(self).end_time() {
                    time
                } else {
                    old(self).end_time()
                }
                &&& !kept ==> r == Ok::<Observed, TraceError>(Observed::BeforeWindow)
                    && final(self).pending() == old(self).pending() && final(self).samples()
                    == old(self).samples()
                &&& kept && decoded_headers(data@) is None ==> r == Ok::<Observed, TraceError>(
                    Observed::Malformed,
                ) && final(self).pending() == old(self).pending() && final(self).samples()
                    == old(self).samples()
                &&& kept && decoded_headers(data@) is Some ==> {
                    let h = decoded_headers(data@).unwrap();
                    let o = handle_outcome(old(self).pending(), old(self).port(), time, h);
                    &&& r == match o {
                        Ok(s) => Ok(Observed::Decoded(s)),
                        Err(e) => Err(e),
                    }
                    &&& final(self).pending() == pending_after_handle(
                        old(self).pending(),
                        old(self).port(),
                        time,
                        h,
                    )
                    &&& final(self).samples() == samples_after(old(self).samples(), o)
                }
            }),
            final(self).port() == old(self).port(),
            final(self).leading_offset() == old(self).leading_offset(),
    {
        if !self.note_time(time) {
            return Ok(Observed::BeforeWindow);
        }
        match decode_ethernet(data) {
            None => Ok(Observed::Malformed),
            Some(h) => match self.handle(time, &h) {
                Ok(s) => Ok(Observed::Decoded(s)),
                Err(e) => Err(e),
            },
        }
    }

    /// The records of the samples that ended more than `trailing_offset`
    /// seconds before the end of the capture, with the statistics of their
    /// durations; an error when there are none.
    pub fn results(&self, trailing_offset: u64) -> (r: Result<Results, StatisticsError>)
        ensures
            ({
                let records = window(self.samples(), self.end_time(), trailing_offset);
                &&& records.len() == 0 <==> r is Err
                &&& r matches Ok(res) ==> res.latency@ == records && exists|t: Seq<u64>|
                    sorted_permutation(durations_of(records), t) && res.statistics.latency
                        == stats_of(t)
                &&& r matches Ok(res) ==> forall|t: Seq<u64>|
                    sorted_permutation(durations_of(records), t) ==> res.statistics.latency
                        == stats_of(t)
            }),
    {
        let latency = window_filter(&self.samples, self.end_time, trailing_offset);
        let values = durations(&latency);
        match Statistics::of(&values) {
            Ok(st) => Ok(Results { latency, statistics: StatisticsResults { latency: st } }),
            Err(e) => Err(e),
        }
    }
}

} // verus!
