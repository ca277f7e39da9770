//! Checks of the query-engine decisions: discovery accumulation across
//! datagrams, spoofed-source rejection, and fan-out collection.

use dpmaster::ClientError;
use dpmaster::DiscoveryAccumulator;
use dpmaster::DiscoveryExtAccumulator;
use dpmaster::InfoQueryStep;
use dpmaster::ParseResponseError;
use dpmaster::SocketAddr;
use dpmaster::SocketAddrV4;
use dpmaster::StatusQueryStep;
use dpmaster::StatusResponse;

const OOB: &[u8] = b"\xFF\xFF\xFF\xFF";

fn v4(a: u8, b: u8, c: u8, d: u8, port: u16) -> SocketAddrV4 {
    SocketAddrV4 { ip: u32::from_be_bytes([a, b, c, d]), port }
}

fn v4_entry(addr: &SocketAddrV4) -> Vec<u8> {
    let mut e = vec![b'\\'];
    e.extend_from_slice(&addr.ip.to_be_bytes());
    e.extend_from_slice(&addr.port.to_be_bytes());
    e
}

fn datagram(addrs: &[SocketAddrV4], eot: bool) -> Vec<u8> {
    let mut d = [OOB, b"getserversResponse"].concat();
    for a in addrs {
        d.extend_from_slice(&v4_entry(a));
    }
    if eot {
        d.extend_from_slice(b"\\EOT\0\0\0");
    }
    d
}

#[test]
fn accumulator_merges_datagrams_and_stops_at_sentinel() {
    let a1 = v4(192, 0, 2, 1, 27960);
    let a2 = v4(192, 0, 2, 2, 27961);
    let a3 = v4(10, 0, 0, 1, 7778);
    let mut acc = DiscoveryAccumulator::new();
    acc.feed(&datagram(&[a1, a2], false));
    assert!(!acc.is_done());
    acc.feed(&datagram(&[a3], true));
    assert!(acc.is_done());
    assert_eq!(acc.addresses, vec![a1, a2, a3]);
}

#[test]
fn accumulator_split_feed_equals_concatenated_feed() {
    let a1 = v4(192, 0, 2, 1, 27960);
    let a2 = v4(192, 0, 2, 2, 27961);
    let a3 = v4(10, 0, 0, 1, 7778);
    let d1 = datagram(&[a1], false);
    let d2 = datagram(&[a2], false);
    let d3 = datagram(&[a3], true);

    let mut split = DiscoveryAccumulator::new();
    split.feed(&d1);
    split.feed(&d2);
    split.feed(&d3);

    let mut joined = DiscoveryAccumulator::new();
    joined.feed(&[d1, d2, d3].concat());

    assert_eq!(split.addresses, joined.addresses);
    assert_eq!(split.is_done(), joined.is_done());
    assert_eq!(split.addresses, vec![a1, a2, a3]);
    assert!(split.is_done());
}

#[test]
fn accumulator_consumes_concatenated_responses_and_ignores_tail_noise() {
    let a1 = v4(192, 0, 2, 1, 27960);
    let a2 = v4(192, 0, 2, 2, 27961);
    let mut buffer = [datagram(&[a1], false), datagram(&[a2], false)].concat();
    buffer.extend_from_slice(b"tail noise");
    let mut acc = DiscoveryAccumulator::new();
    acc.feed(&buffer);
    assert_eq!(acc.addresses, vec![a1, a2]);
    assert!(!acc.is_done());
}

#[test]
fn accumulator_drops_malformed_datagrams() {
    let a1 = v4(192, 0, 2, 1, 27960);
    let mut acc = DiscoveryAccumulator::new();
    acc.feed(b"in-band noise");
    acc.feed(&datagram(&[a1], false));
    acc.feed(b"\xFF\xFF\xFF\xFFsomethingElse");
    assert_eq!(acc.addresses, vec![a1]);
    assert!(!acc.is_done());
}

#[test]
fn accumulator_keeps_duplicates() {
    let a1 = v4(192, 0, 2, 1, 27960);
    let mut acc = DiscoveryAccumulator::new();
    acc.feed(&datagram(&[a1], false));
    acc.feed(&datagram(&[a1], true));
    assert_eq!(acc.addresses, vec![a1, a1], "deduplication is the caller's business");
}

#[test]
fn ext_accumulator_merges_datagrams() {
    let mut d = [OOB, b"getserversExtResponse"].concat();
    let v6bytes: [u8; 16] = [0x20, 0x01, 0x0d, 0xb8, 0, 0, 0, 0, 0, 0, 0, 0, 0, 0, 0, 0x42];
    d.push(b'/');
    d.extend_from_slice(&v6bytes);
    d.extend_from_slice(&27960u16.to_be_bytes());
    d.extend_from_slice(b"\\EOT\0\0\0");
    let mut acc = DiscoveryExtAccumulator::new();
    acc.feed(&d);
    assert!(acc.is_done());
    assert_eq!(
        acc.addresses,
        vec![SocketAddr::V6(dpmaster::SocketAddrV6 {
            ip: u128::from_be_bytes(v6bytes),
            port: 27960,
        })]
    );
}

fn info_datagram() -> Vec<u8> {
    [OOB, b"infoResponse\n", b"\\hostname\\Test"].concat()
}

fn status_datagram() -> Vec<u8> {
    [OOB, b"statusResponse\n", b"\\hostname\\Test", b"\n", b"1 2 \"p\" 3\n"].concat()
}

#[test]
fn info_query_ignores_wrong_source() {
    let target = SocketAddr::V4(v4(192, 0, 2, 1, 27960));
    let spoofer = SocketAddr::V4(v4(192, 0, 2, 9, 27960));
    let good = info_datagram();
    match dpmaster::step_info_query(&target, &spoofer, &good) {
        InfoQueryStep::Ignore => {}
        _ => panic!("a reply from the wrong source must be ignored, valid or not"),
    }
    match dpmaster::step_info_query(&target, &target, &good) {
        InfoQueryStep::Done(resp) => {
            assert_eq!(
                resp.key_values.get(b"hostname").map(|v| v.as_slice()),
                Some(b"Test".as_slice())
            );
        }
        _ => panic!("a valid reply from the target settles the query"),
    }
    match dpmaster::step_info_query(&target, &target, b"\xFF\xFF\xFF\xFFnope") {
        InfoQueryStep::Failed(ClientError::ParseResponseError(_)) => {}
        _ => panic!("a malformed reply from the target fails the query"),
    }
}

#[test]
fn status_query_decides_each_event() {
    let target = SocketAddr::V4(v4(192, 0, 2, 1, 27960));
    let spoofer = SocketAddr::V4(v4(192, 0, 2, 9, 27960));
    let good = status_datagram();

    match dpmaster::step_status_query(&target, &spoofer, &good) {
        StatusQueryStep::Ignore => {}
        _ => panic!("a reply from the wrong source must be ignored, valid or not"),
    }
    match dpmaster::step_status_query(&target, &target, &good) {
        StatusQueryStep::Done(resp) => {
            assert_eq!(resp.player_infos.len(), 1);
        }
        _ => panic!("a valid reply from the target settles the query"),
    }
    match dpmaster::step_status_query(&target, &target, b"garbage") {
        StatusQueryStep::Failed(ClientError::ParseResponseError(
            ParseResponseError::InvalidResponse,
        )) => {}
        _ => panic!("a malformed reply from the target fails the query"),
    }
}

#[test]
fn collect_successes_keeps_only_responders() {
    let mut results: Vec<(SocketAddr, Option<StatusResponse>)> = Vec::new();
    let mut expected: Vec<SocketAddr> = Vec::new();
    for k in 0..20u8 {
        let addr = SocketAddr::V4(v4(192, 0, 2, k, 27960));
        if k % 4 == 0 {
            // five of the twenty never respond
            results.push((addr, None));
        } else {
            let (resp, _) = StatusResponse::parse(&status_datagram()).unwrap();
            results.push((addr, Some(resp)));
            expected.push(addr);
        }
    }
    let collected = dpmaster::collect_successes(results);
    assert_eq!(collected.len(), 15);
    let got: Vec<SocketAddr> = collected.iter().map(|p| p.0).collect();
    assert_eq!(got, expected);
}
