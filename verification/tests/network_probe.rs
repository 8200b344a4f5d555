//! Behaviour of checks and of the choice of a path.

use udp_transfer::duration::Duration;
use udp_transfer::ids::{CheckToken, Id};
use udp_transfer::net::{IpAddr, SocketAddr};
use udp_transfer::network_probe::candidate::{digest_bytes, same_subnet};
use udp_transfer::network_probe::check::{respond, DEFAULT_MTU_SAMPLE};
use udp_transfer::network_probe::clock::count_millis;
use udp_transfer::network_probe::interface::arrange;
use udp_transfer::network_probe::routes::{
    prefix_len, read_ipv4_routes, read_linux_ipv4_routes, read_linux_ipv6_routes,
};
use udp_transfer::network_probe::selection::{can_score, decide, score};
use udp_transfer::network_probe::{
    candidate_digest, choose_path, pair_candidates, select_best, unix_millis, Candidate,
    CandidateExchange, CandidateKind, CheckAuthorization, CheckResult, KindCodes, NetworkInterface,
    NetworkRoute, NetworkSnapshot, PathCheck, PathDecision, PathKind, PathSelectionConfig,
    ProbeAction, ProbeConfig, ProbeError, ProbeRun, RelayPath, SelectionError,
};

const CODES: KindCodes =
    KindCodes { host: 1, routed_lan: 2, server_reflexive: 3, peer_reflexive: 4, relay: 5 };

fn v4(d: u8, port: u16) -> SocketAddr {
    SocketAddr::new(IpAddr::v4(192, 0, 2, d), port)
}

fn candidate(id: u8, kind: CandidateKind, address: Option<SocketAddr>, priority: u16) -> Candidate {
    Candidate { id: Id::from_bytes([id; 16]), kind, address, priority, interface_index: Some(2) }
}

fn result(id: u8, kind: CandidateKind, priority: u16, rtt: u64) -> CheckResult {
    CheckResult {
        candidate: candidate(id, kind, Some(v4(id, 4000)), priority),
        sent: 3,
        received: 3,
        rtt_millis: Some(rtt),
        mtu: 1200,
        observed_address: None,
    }
}

fn interface(name: &str, index: u32, address: IpAddr) -> NetworkInterface {
    NetworkInterface {
        name: name.to_owned(),
        index,
        address,
        prefix_len: 24,
        is_loopback: false,
        is_up: true,
    }
}

#[test]
fn topology_and_rtt_are_used_for_selection() {
    let selected = select_best(
        &[
            result(1, CandidateKind::ServerReflexive, 70, 5),
            result(2, CandidateKind::Host, 100, 20),
        ],
        PathSelectionConfig::default(),
    )
    .unwrap();
    assert_eq!(selected.candidate_id, Id::from_bytes([2; 16]));
    assert_eq!(selected.kind, PathKind::Host);
    assert_eq!(selected.score, 180);
}

#[test]
fn route_default_is_detected() {
    let snapshot = NetworkSnapshot::new(
        vec![interface("eth0", 2, IpAddr::v4(192, 0, 2, 1))],
        vec![NetworkRoute {
            interface_name: "eth0".to_owned(),
            interface_index: Some(2),
            destination: IpAddr::V4(0),
            prefix_len: 0,
            gateway: Some(IpAddr::v4(192, 0, 2, 254)),
            is_default: true,
        }],
    );
    let candidates = snapshot.candidates(4000, 4).unwrap();
    assert_eq!(candidates[0].priority, 100);
}

#[test]
fn authorized_loopback_check_records_rtt_and_mtu() {
    let config = ProbeConfig {
        retries: 0,
        samples: 1,
        timeout: Duration::from_millis(100),
        ..ProbeConfig::default()
    };
    let responder = SocketAddr::new(IpAddr::v4(127, 0, 0, 1), 5001);
    let initiator = SocketAddr::new(IpAddr::v4(127, 0, 0, 1), 5002);
    let target = Candidate {
        id: Id::from_bytes([7; 16]),
        kind: CandidateKind::Host,
        address: Some(responder),
        priority: 100,
        interface_index: None,
    };
    let transfer_id = Id::from_bytes([8; 16]);
    let token = CheckToken::from_bytes([9; 32]);
    let authorization =
        CheckAuthorization::new(transfer_id, token, unix_millis().saturating_add(10_000), &[target])
            .unwrap();
    let mut run = ProbeRun::start(config, transfer_id, token, &[target]).unwrap();
    let request = match run.next(unix_millis()).unwrap() {
        ProbeAction::Send { address, request } => {
            assert_eq!(address, responder);
            request
        }
        other => panic!("unexpected action: {other:?}"),
    };
    run.sent(Duration::from_millis(10));
    assert!(matches!(
        run.next(0),
        Ok(ProbeAction::Wait { deadline }) if deadline == Duration::from_millis(110)
    ));
    let now = unix_millis();
    let (response, told) =
        respond(&config, &authorization, Some(request), initiator, now, now).unwrap();
    assert_eq!(told.observed_address, Some(initiator));
    assert!(!run.received(None, Duration::from_millis(20)));
    assert!(run.received(Some(response), Duration::from_millis(35)));
    assert!(matches!(run.next(0), Ok(ProbeAction::Done)));
    let results = run.results();
    assert!(results[0].succeeded());
    assert_eq!(results[0].received, 1);
    assert_eq!(results[0].mtu, DEFAULT_MTU_SAMPLE as u16);
    assert_eq!(results[0].rtt_millis, Some(25));
    assert_eq!(results[0].loss_percent(), 0);
}

#[test]
fn rounds_without_answers_count_as_lost() {
    let config = ProbeConfig { retries: 1, samples: 3, ..ProbeConfig::default() };
    let targets = [
        candidate(1, CandidateKind::Host, Some(v4(1, 4000)), 1),
        candidate(2, CandidateKind::Host, None, 1),
    ];
    let mut run =
        ProbeRun::start(config, Id::from_bytes([8; 16]), CheckToken::from_bytes([9; 32]), &targets)
            .unwrap();
    let mut now = 0;
    loop {
        match run.next(now).unwrap() {
            ProbeAction::Send { .. } => run.sent(Duration::from_millis(now)),
            ProbeAction::Wait { .. } => run.gave_up(),
            ProbeAction::Done => break,
        }
        now += 1;
    }
    let results = run.results();
    assert_eq!(results[0].sent, 3);
    assert_eq!(results[0].received, 0);
    assert_eq!(results[0].loss_percent(), 100);
    assert_eq!(results[1].sent, 0);
    assert_eq!(results[1].loss_percent(), 100);
}

#[test]
fn checks_that_cannot_start_say_why() {
    let token = CheckToken::from_bytes([9; 32]);
    let id = Id::from_bytes([8; 16]);
    let target = candidate(1, CandidateKind::Host, Some(v4(1, 4000)), 1);
    let start = |config: ProbeConfig, targets: &[Candidate]| {
        ProbeRun::start(config, id, token, targets).err().map(|error| error.message())
    };
    assert_eq!(start(ProbeConfig::default(), &[target]), None);
    assert_eq!(
        start(ProbeConfig::default(), &[]).unwrap(),
        "no usable network candidate is available"
    );
    assert_eq!(
        start(ProbeConfig { max_candidates: 1, ..ProbeConfig::default() }, &[target, target]).unwrap(),
        "invalid probe configuration: candidate count"
    );
    assert_eq!(
        start(ProbeConfig { samples: 0, ..ProbeConfig::default() }, &[target]).unwrap(),
        "invalid probe configuration: samples"
    );
    let nowhere = candidate(1, CandidateKind::Host, None, 1);
    assert!(matches!(
        ProbeRun::start(ProbeConfig::default(), id, token, &[nowhere]),
        Err(ProbeError::NoCandidates)
    ));
}

#[test]
fn configuration_of_checks_is_validated() {
    let bad = |change: fn(&mut ProbeConfig)| {
        let mut config = ProbeConfig::default();
        change(&mut config);
        match config.validate() {
            Err(ProbeError::InvalidConfig(field)) => field,
            other => panic!("unexpected answer: {other:?}"),
        }
    };
    assert!(ProbeConfig::default().validate().is_ok());
    assert_eq!(bad(|config| config.timeout = Duration::zero()), "timeout");
    assert_eq!(bad(|config| config.max_candidates = 0), "max_candidates");
    assert_eq!(bad(|config| config.max_datagram_size = 63), "max_datagram_size");
    assert_eq!(bad(|config| config.max_datagram_size = 65_508), "max_datagram_size");
    assert_eq!(bad(|config| config.mtu_sample_size = 1_473), "mtu_sample_size");
    assert_eq!(ProbeConfig::default().rounds(), 3);
    assert_eq!(ProbeConfig { retries: usize::MAX, ..ProbeConfig::default() }.rounds(), usize::MAX);
}

#[test]
fn only_authorized_checks_are_answered() {
    let id = Id::from_bytes([8; 16]);
    let token = CheckToken::from_bytes([9; 32]);
    let target = candidate(1, CandidateKind::Host, Some(v4(1, 4000)), 1);
    let authorization = CheckAuthorization::new(id, token, 1_000, &[target]).unwrap();
    let request = |transfer_id, candidate_id| {
        Some(PathCheck::Request {
            transfer_id,
            transaction_id: Id::from_bytes([1; 16]),
            check_token: token,
            candidate_id,
            send_timestamp_millis: 0,
        })
    };
    let config = ProbeConfig::default();
    let source = v4(9, 9);
    assert!(respond(&config, &authorization, request(id, target.id), source, 999, 999).is_ok());
    let refused = |message, source, now| {
        respond(&config, &authorization, message, source, now, now).unwrap_err().message()
    };
    assert_eq!(refused(request(id, target.id), source, 1_000), "path check authorization has expired");
    assert_eq!(refused(request(id, Id::from_bytes([2; 16])), source, 1), "path check is not authorized");
    assert_eq!(refused(request(target.id, target.id), source, 1), "path check is not authorized");
    assert_eq!(refused(None, source, 5_000), "path check is not authorized");
    let multicast = SocketAddr::new(IpAddr::v4(224, 0, 0, 1), 5);
    assert_eq!(refused(request(id, target.id), multicast, 1), "path check is not authorized");
    assert_eq!(refused(request(id, target.id), v4(1, 0), 1), "path check is not authorized");

    assert!(matches!(
        CheckAuthorization::new(id, token, 1, &[candidate(3, CandidateKind::Host, Some(v4(1, 0)), 1)]),
        Err(ProbeError::InvalidCandidate(found)) if found == Id::from_bytes([3; 16])
    ));
    assert!(matches!(
        CheckAuthorization::new(id, token, 1, &[candidate(3, CandidateKind::Host, None, 1)]),
        Err(ProbeError::NoCandidates)
    ));
    assert_eq!(
        ProbeError::InvalidCandidate(Id::from_bytes([0xa3; 16])).message(),
        "invalid network candidate a3a3a3a3a3a3a3a3a3a3a3a3a3a3a3a3"
    );
}

#[test]
fn digest_ignores_the_order_of_candidates() {
    let one = candidate(1, CandidateKind::Host, Some(v4(1, 4000)), 100);
    let two = candidate(2, CandidateKind::Relay, None, 10);
    let three = candidate(3, CandidateKind::RoutedLan, Some(SocketAddr::new(IpAddr::V6(7), 9)), 90);
    let digest = candidate_digest(&vec![one, two, three], CODES);
    assert_eq!(digest, candidate_digest(&vec![three, one, two], CODES));
    assert_ne!(digest, candidate_digest(&vec![one, two], CODES));
    let changed = Candidate { priority: 101, ..one };
    assert_ne!(digest, candidate_digest(&vec![changed, two, three], CODES));
}

#[test]
fn digest_is_taken_of_the_laid_out_candidates() {
    let one = candidate(1, CandidateKind::Host, Some(v4(1, 4000)), 100);
    let message = digest_bytes(&vec![one], CODES);
    let mut expected = b"udp-transfer-candidates-v1\0".to_vec();
    expected.extend_from_slice(&[1; 16]);
    expected.extend_from_slice(&[1, 4, 192, 0, 2, 1, 0x0f, 0xa0, 0, 100, 0, 0, 0, 2]);
    assert_eq!(message, expected);
    assert_eq!(
        candidate_digest(&vec![one], CODES),
        *blake3::hash(&expected).as_bytes()
    );
}

#[test]
fn pairs_are_formed_of_addresses_and_the_best_come_first() {
    let local = [
        candidate(1, CandidateKind::Host, Some(v4(1, 1)), 100),
        candidate(2, CandidateKind::Host, None, 100),
    ];
    let far = SocketAddr::new(IpAddr::v4(198, 51, 100, 1), 1);
    let remote = [
        candidate(3, CandidateKind::Relay, Some(v4(9, 9)), 100),
        candidate(4, CandidateKind::Host, Some(far), 100),
        candidate(5, CandidateKind::PeerReflexive, Some(v4(8, 8)), 100),
        candidate(6, CandidateKind::Host, Some(v4(7, 7)), 100),
    ];
    let pairs = pair_candidates(&local, &remote, 10);
    let seen: Vec<(PathKind, u32)> = pairs.iter().map(|pair| (pair.kind, pair.priority)).collect();
    assert_eq!(
        seen,
        vec![
            (PathKind::Host, 300),
            (PathKind::RoutedLan, 290),
            (PathKind::ReflexiveDirect, 270),
            (PathKind::Relay, 210),
        ]
    );
    assert_eq!(pair_candidates(&local, &remote, 2).len(), 2);
    assert!(same_subnet(IpAddr::v4(10, 0, 0, 1), IpAddr::v4(10, 0, 0, 200)));
    assert!(!same_subnet(IpAddr::v4(10, 0, 0, 1), IpAddr::v4(10, 0, 1, 1)));
    assert!(same_subnet(IpAddr::V6(1 << 64), IpAddr::V6((1 << 64) + 5)));
    assert!(!same_subnet(IpAddr::V6(1 << 64), IpAddr::V6(5)));
}

#[test]
fn exchange_needs_candidates_of_both_sides() {
    let one = candidate(1, CandidateKind::Host, Some(v4(1, 1)), 100);
    let token = CheckToken::from_bytes([9; 32]);
    let id = Id::from_bytes([8; 16]);
    assert!(matches!(
        CandidateExchange::new(id, vec![one], vec![], token, CODES),
        Err(ProbeError::NoCandidates)
    ));
    let exchange = CandidateExchange::new(id, vec![one], vec![one], token, CODES).unwrap();
    assert_eq!(exchange.digest, candidate_digest(&vec![one], CODES));
    assert_eq!(exchange.pairs(5).len(), 1);
}

#[test]
fn score_weighs_delay_loss_and_size() {
    let config = PathSelectionConfig::default();
    let mut lossy = result(1, CandidateKind::Host, 50, 7);
    lossy.sent = 4;
    lossy.received = 3;
    lossy.mtu = 850;
    // 50 + 100 - 7 - 25 * 8 - 3 * 2
    assert_eq!(score(&lossy, config), Some(-63));
    let mut six = result(1, CandidateKind::Host, 50, 7);
    six.candidate.address = Some(SocketAddr::new(IpAddr::V6(1), 1));
    assert_eq!(score(&six, config), Some(147));
    let endless = result(1, CandidateKind::Host, 0, u64::MAX);
    assert_eq!(score(&endless, config), Some(100 - i64::MAX));
    let heavy = PathSelectionConfig { rtt_penalty_per_millis: i64::MAX, ..config };
    assert_eq!(score(&result(1, CandidateKind::Host, 0, 3), heavy), None);
    assert!(!can_score(&[result(1, CandidateKind::Host, 0, 3)], heavy));
}

#[test]
fn relay_is_taken_only_without_a_direct_path() {
    let config = PathSelectionConfig::default();
    let relay = || Some(RelayPath { relay_id: Id::from_bytes([1; 16]), relay_ticket: vec![1] });
    let mut silent = result(1, CandidateKind::Host, 100, 5);
    silent.received = 0;
    let small = CheckResult { mtu: 575, ..result(2, CandidateKind::Host, 100, 5) };
    let relayed = result(3, CandidateKind::Relay, 100, 5);
    let useless = [silent, small, relayed];
    assert!(matches!(
        choose_path(&useless, config, relay(), false),
        Ok(PathDecision::Relay(_))
    ));
    assert!(matches!(
        choose_path(&useless, config, relay(), true),
        Err(SelectionError::NoSuccessfulDirectPath)
    ));
    assert!(matches!(
        choose_path(&useless, config, None, false),
        Err(SelectionError::NoSuccessfulDirectPath)
    ));
    let good = [silent, result(4, CandidateKind::PeerReflexive, 1, 5)];
    assert!(matches!(
        choose_path(&good, config, relay(), false),
        Ok(PathDecision::Direct(path)) if path.kind == PathKind::ReflexiveDirect
    ));
    assert!(matches!(
        decide(Err(SelectionError::RandomnessUnavailable), None, false),
        Err(SelectionError::RandomnessUnavailable)
    ));
    assert_eq!(
        SelectionError::NoSuccessfulDirectPath.message(),
        "no successful direct path is available"
    );
}

#[test]
fn equal_paths_are_told_apart_by_their_names() {
    let selected = select_best(
        &[result(9, CandidateKind::Host, 100, 5), result(3, CandidateKind::Host, 100, 5)],
        PathSelectionConfig::default(),
    )
    .unwrap();
    assert_eq!(selected.candidate_id, Id::from_bytes([3; 16]));
    let again = select_best(
        &[result(9, CandidateKind::Host, 100, 5), result(3, CandidateKind::Host, 100, 5)],
        PathSelectionConfig::default(),
    )
    .unwrap();
    assert_ne!(selected.path_id, again.path_id);
}

#[test]
fn snapshot_gives_each_address_once() {
    let mut lo = interface("lo", 1, IpAddr::v4(127, 0, 0, 1));
    lo.is_loopback = true;
    let mut down = interface("down", 4, IpAddr::v4(10, 0, 0, 9));
    down.is_up = false;
    let snapshot = NetworkSnapshot::new(
        vec![
            lo,
            interface("b", 3, IpAddr::v4(10, 0, 0, 2)),
            interface("a", 2, IpAddr::v4(10, 0, 0, 1)),
            interface("c", 5, IpAddr::v4(10, 0, 0, 2)),
            down,
        ],
        vec![],
    );
    let candidates = snapshot.candidates(4000, 8).unwrap();
    assert_eq!(candidates.len(), 2);
    assert_eq!(candidates[0].interface_index, Some(2));
    assert_eq!(candidates[1].interface_index, Some(3));
    assert_eq!(candidates[0].priority, 90);
    assert_ne!(candidates[0].id, candidates[1].id);
    assert_eq!(snapshot.candidates(4000, 1).unwrap().len(), 1);
    assert!(matches!(snapshot.candidates(0, 8), Err(ProbeError::InvalidConfig("candidate port"))));
    assert!(matches!(
        snapshot.candidates(4000, 0),
        Err(ProbeError::InvalidConfig("max_candidates"))
    ));
    assert!(matches!(
        NetworkSnapshot::new(vec![], vec![]).candidates(1, 1),
        Err(ProbeError::NoCandidates)
    ));
}

#[test]
fn interfaces_are_put_in_order_without_repetitions() {
    let listed = vec![
        interface("b", 3, IpAddr::v4(10, 0, 0, 2)),
        interface("a", 2, IpAddr::V6(1)),
        interface("a", 2, IpAddr::v4(10, 0, 0, 1)),
        interface("again", 3, IpAddr::v4(10, 0, 0, 2)),
    ];
    assert_eq!(arrange(&listed), vec![2, 1, 0]);
}

#[test]
fn route_tables_are_read() {
    let interfaces = vec![interface("eth0", 2, IpAddr::v4(10, 0, 0, 1))];
    let table = "Iface\tDestination\tGateway\tFlags\tRefCnt\tUse\tMetric\tMask\n\
                 eth0\t00000000\t0102000A\t0003\t0\t0\t0\t00000000\t0\t0\t0\n\
                 wlan0\t0000000A\t00000000\t0001\t0\t0\t0\t00FFFFFF\n\
                 short line\n\
                 eth0\tnothex\t00000000\t0001\t0\t0\t0\t00FFFFFF\n";
    let routes = read_linux_ipv4_routes(table, &interfaces);
    assert_eq!(routes.len(), 2);
    assert_eq!(routes[0].interface_name, "eth0");
    assert_eq!(routes[0].interface_index, Some(2));
    assert!(routes[0].is_default);
    assert_eq!(routes[0].gateway, Some(IpAddr::V4(0x0102_000a)));
    assert_eq!(routes[1].interface_index, None);
    assert_eq!(routes[1].prefix_len, 24);
    assert_eq!(routes[1].gateway, None);
    assert_eq!(routes[1].destination, IpAddr::V4(0x0000_000a));

    let six = "fe800000000000000000000000000000 40 00000000000000000000000000000000 00 \
               00000000000000000000000000000000 00000100 00000001 00000000 00000001 eth0\n\
               00000000000000000000000000000000 00 00000000000000000000000000000000 00 \
               20010db8000000000000000000000001 00000100 00000001 00000000 00000001 eth0\n";
    let routes = read_linux_ipv6_routes(six, &interfaces);
    assert_eq!(routes.len(), 2);
    assert_eq!(routes[0].destination, IpAddr::V6(0xfe80 << 112));
    assert_eq!(routes[0].prefix_len, 64);
    assert_eq!(routes[0].gateway, None);
    assert!(!routes[0].is_default);
    assert!(routes[1].is_default);
    assert_eq!(routes[1].gateway, Some(IpAddr::V6((0x2001_0db8 << 96) + 1)));
    assert_eq!(prefix_len(IpAddr::v4(255, 255, 240, 0)), 20);
    assert_eq!(prefix_len(IpAddr::V6(u128::MAX)), 128);
}

#[test]
fn clock_counts_from_the_epoch() {
    assert!(unix_millis() > 1_600_000_000_000);
    assert_eq!(count_millis(None), 0);
    assert_eq!(count_millis(Some(12)), 12);
    assert_eq!(count_millis(Some(u128::MAX)), u64::MAX);
}

#[test]
fn addresses_of_a_route_table_follow_the_byte_order() {
    let interfaces = vec![interface("eth0", 2, IpAddr::v4(10, 0, 0, 1))];
    let table = "Iface\tDestination\tGateway\tFlags\tRefCnt\tUse\tMetric\tMask\n\
                 eth0\t0000000A\t0102000A\t0003\t0\t0\t0\t00FFFFFF\t0\t0\t0\n";
    let kept = read_ipv4_routes(table, &interfaces, false);
    assert_eq!(kept.len(), 1);
    assert_eq!(kept[0].destination, IpAddr::V4(0x0000_000a));
    assert_eq!(kept[0].gateway, Some(IpAddr::V4(0x0102_000a)));
    let reversed = read_ipv4_routes(table, &interfaces, true);
    assert_eq!(reversed.len(), 1);
    assert_eq!(reversed[0].destination, IpAddr::V4(0x0a00_0000));
    assert_eq!(reversed[0].gateway, Some(IpAddr::V4(0x0a00_0201)));
    assert_eq!((kept[0].prefix_len, reversed[0].prefix_len), (24, 24));
    let here = read_linux_ipv4_routes(table, &interfaces);
    assert_eq!(here[0].destination, IpAddr::V4(0x0000_000a_u32.to_le()));
}
