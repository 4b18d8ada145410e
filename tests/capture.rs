use etherparse::PacketBuilder;
use report_throughput_latency::packet::{Headers, Network, TcpSegment, Transport};
use report_throughput_latency::statistics::{Statistics, StatisticsError};
use report_throughput_latency::trace::{
    Analyzer, INTERACTIVE_PORT, LatencyRecord, Observed, window_filter,
};
use report_throughput_latency::tracker::{Sample, TraceError};

const CLIENT: [u8; 16] = [0x20, 1, 0xd, 0xb8, 0, 0, 0, 0, 0, 0, 0, 0, 0, 0, 0, 1];
const SERVER: [u8; 16] = [0x20, 1, 0xd, 0xb8, 0, 0, 0, 0, 0, 0, 0, 0, 0, 0, 0, 2];
const MS: u64 = 1_000_000;
const SEC: u64 = 1_000_000_000;

fn tcp_frame(src: [u8; 16], dst: [u8; 16], sp: u16, dp: u16, syn: bool, fin: bool) -> Vec<u8> {
    let b = PacketBuilder::ethernet2([1; 6], [2; 6]).ipv6(src, dst, 64).tcp(sp, dp, 1, 1000);
    let b = if syn { b.syn() } else { b };
    let b = if fin { b.fin() } else { b };
    let mut v = Vec::new();
    b.write(&mut v, &[]).unwrap();
    v
}

#[test]
fn end_to_end_two_packet_trace() {
    let mut a = Analyzer::new(INTERACTIVE_PORT, 0);
    let start = tcp_frame(CLIENT, SERVER, 41000, 8080, true, false);
    let end = tcp_frame(SERVER, CLIENT, 8080, 41000, false, true);
    let last = tcp_frame(CLIENT, SERVER, 41000, 8080, false, false);
    assert_eq!(a.observe(0, &start).unwrap(), Observed::Decoded(None));
    assert_eq!(
        a.observe(50 * MS, &end).unwrap(),
        Observed::Decoded(Some(Sample { time: 50 * MS, duration: 50 * MS }))
    );
    assert_eq!(a.observe(60 * MS, &last).unwrap(), Observed::Decoded(None));
    assert_eq!(a.capture_end(), 60 * MS);
    let res = a.results(0).unwrap();
    assert_eq!(res.latency, vec![LatencyRecord { time_micro: 50_000, request_duration_micro: 50_000 }]);
    let st = res.statistics.latency;
    assert_eq!(
        st,
        Statistics {
            average: 50_000,
            median: 50_000,
            _90th_percentile: 50_000,
            _99th_percentile: 50_000,
            maximum_value: 50_000
        }
    );
}

#[test]
fn window_keeps_samples_before_trailing_offset() {
    let base: u64 = 1_600_000_000 * SEC;
    let samples = vec![
        Sample { time: base, duration: 3 * MS },
        Sample { time: base + 5 * SEC, duration: 4 * MS },
        Sample { time: base + 9 * SEC + 900 * MS, duration: 5 * MS },
        Sample { time: base + 10 * SEC, duration: 6 * MS },
    ];
    let kept = window_filter(&samples, base + 10 * SEC, 1);
    assert_eq!(
        kept,
        vec![
            LatencyRecord { time_micro: base / 1000, request_duration_micro: 3000 },
            LatencyRecord { time_micro: (base + 5 * SEC) / 1000, request_duration_micro: 4000 },
        ]
    );
}

#[test]
fn window_with_zero_offset_drops_only_the_last_instant() {
    let samples = vec![Sample { time: 10, duration: 2_500_123 }, Sample { time: 20, duration: 2_000_000 }];
    let kept = window_filter(&samples, 20, 0);
    assert_eq!(kept, vec![LatencyRecord { time_micro: 0, request_duration_micro: 2_500 }]);
}

#[test]
fn results_without_samples_fail() {
    let mut a = Analyzer::new(INTERACTIVE_PORT, 0);
    let end = tcp_frame(SERVER, CLIENT, 8080, 41000, false, true);
    assert_eq!(a.observe(5 * MS, &end).unwrap(), Observed::Decoded(None));
    assert!(matches!(a.results(0), Err(StatisticsError::EmptyInput)));
}

#[test]
fn ipv4_packet_stops_the_run() {
    let mut a = Analyzer::new(INTERACTIVE_PORT, 0);
    let b = PacketBuilder::ethernet2([1; 6], [2; 6]).ipv4([10, 0, 0, 1], [10, 0, 0, 2], 64).tcp(1, 8080, 1, 1000).syn();
    let mut v = Vec::new();
    b.write(&mut v, &[]).unwrap();
    assert!(matches!(a.observe(0, &v), Err(TraceError::UnsupportedNetwork)));
}

#[test]
fn undecodable_frame_is_skipped() {
    let mut a = Analyzer::new(INTERACTIVE_PORT, 0);
    assert_eq!(a.observe(0, &[1, 2, 3]).unwrap(), Observed::Malformed);
}

#[test]
fn udp_and_other_ports_are_ignored() {
    let mut a = Analyzer::new(INTERACTIVE_PORT, 0);
    let b = PacketBuilder::ethernet2([1; 6], [2; 6]).ipv6(CLIENT, SERVER, 64).udp(41000, 8080);
    let mut v = Vec::new();
    b.write(&mut v, &[]).unwrap();
    assert_eq!(a.observe(0, &v).unwrap(), Observed::Decoded(None));
    let start = tcp_frame(CLIENT, SERVER, 41000, 80, true, false);
    let end = tcp_frame(SERVER, CLIENT, 80, 41000, false, true);
    assert_eq!(a.observe(1 * MS, &start).unwrap(), Observed::Decoded(None));
    assert_eq!(a.observe(9 * MS, &end).unwrap(), Observed::Decoded(None));
}

#[test]
fn leading_offset_skips_early_packets() {
    let mut a = Analyzer::new(INTERACTIVE_PORT, 1);
    let start = tcp_frame(CLIENT, SERVER, 41000, 8080, true, false);
    let end = tcp_frame(SERVER, CLIENT, 8080, 41000, false, true);
    assert_eq!(a.observe(10 * SEC, &start).unwrap(), Observed::BeforeWindow);
    assert_eq!(a.capture_end(), 0);
    assert_eq!(a.observe(11 * SEC, &start).unwrap(), Observed::Decoded(None));
    // an earlier timestamp moves the start of the capture back
    assert_eq!(a.observe(9 * SEC, &end).unwrap(), Observed::BeforeWindow);
    assert_eq!(
        a.observe(11 * SEC + 20 * MS, &end).unwrap(),
        Observed::Decoded(Some(Sample { time: 11 * SEC + 20 * MS, duration: 20 * MS }))
    );
    assert_eq!(a.capture_end(), 11 * SEC + 20 * MS);
}

#[test]
fn handle_reads_decoded_headers() {
    let mut a = Analyzer::new(INTERACTIVE_PORT, 0);
    let syn = Headers {
        network: Network::Ipv6 { source: CLIENT, destination: SERVER },
        transport: Transport::Tcp(TcpSegment { source_port: 41000, destination_port: 8080, syn: true, fin: false }),
    };
    let fin = Headers {
        network: Network::Ipv6 { source: SERVER, destination: CLIENT },
        transport: Transport::Tcp(TcpSegment { source_port: 8080, destination_port: 41000, syn: false, fin: true }),
    };
    assert_eq!(a.handle(100 * MS, &syn).unwrap(), None);
    assert_eq!(a.handle(130 * MS, &fin).unwrap(), Some(Sample { time: 130 * MS, duration: 30 * MS }));
    assert_eq!(a.latency_samples().len(), 1);
    let v4 = Headers { network: Network::Ipv4, transport: Transport::Absent };
    assert!(matches!(a.handle(140 * MS, &v4), Err(TraceError::UnsupportedNetwork)));
    let none = Headers { network: Network::Absent, transport: Transport::Absent };
    assert_eq!(a.handle(150 * MS, &none).unwrap(), None);
}

#[test]
fn same_port_both_flags_fails_as_too_short() {
    let mut a = Analyzer::new(INTERACTIVE_PORT, 0);
    let both = tcp_frame(CLIENT, SERVER, 8080, 8080, true, true);
    assert!(matches!(a.observe(0, &both), Err(TraceError::UnrealisticDuration { start: 0, end: 0, .. })));
}
