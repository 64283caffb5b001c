use medium::netstack::dns::{answer_query, parse_query, query_a};
use medium::netstack::network::{
    normalize_name, service_addr, service_hostname, NetworkError, PublishedService, VirtualNetwork,
};
use medium::netstack::tcp::{
    event_service_id, missing_listeners, redirect_response, slot_io, stream_finished, stream_start, tcp_stream_id, SlotIo,
    SlotState,
};
use medium::netstack::tun::PacketDevice;

fn svc(id: &str, label: Option<&str>) -> PublishedService {
    PublishedService {
        id: id.to_string(),
        label: label.map(|l| l.to_string()),
        kind: "https".to_string(),
    }
}

#[test]
fn normalizes_service_hostname() {
    assert_eq!(service_hostname("Hello World"), "hello-world.medium");
    assert_eq!(service_hostname("svc_openclaw"), "svc-openclaw.medium");
    assert_eq!(service_hostname("  "), "service.medium");
}

#[test]
fn maps_services_to_stable_virtual_addresses() {
    let network = VirtualNetwork::new(&[svc("hello", None), svc("svc_docs", Some("Docs"))]).unwrap();

    assert_eq!(network.interface_cidr(), ([10, 88, 0, 2], 24));
    assert_eq!(network.dns_addr(), [10, 88, 0, 1]);
    assert_eq!(network.services()[0].hostname, "hello.medium");
    assert_eq!(network.services()[0].addr, [10, 88, 0, 10]);
    assert_eq!(network.services()[1].hostname, "docs.medium");
    assert_eq!(network.resolve_hostname("docs.medium.").unwrap().id, "svc_docs");
    assert_eq!(network.service_for_addr([10, 88, 0, 10]).unwrap().id, "hello");
}

#[test]
fn packet_device_bridges_tun_packets_to_smoltcp_device() {
    let mut device = PacketDevice::new(1500);
    assert_eq!(device.mtu, 1500);

    device.push_tun_packet(vec![0x45, 0x00, 0x00, 0x14]);
    let observed = device.receive_packet().expect("rx packet");
    assert_eq!(observed, vec![0x45, 0x00, 0x00, 0x14]);

    device.transmit_packet(vec![0x45, 0x00, 0x00, 0x15]);
    assert_eq!(device.pop_tun_packet(), Some(vec![0x45, 0x00, 0x00, 0x15]));
}

#[test]
fn dns_answers_medium_hostname_with_virtual_service_addr() {
    let network = VirtualNetwork::new(&[svc("hello", None)]).unwrap();
    let response = answer_query(&query_a(0x1234, "hello.medium"), &network).expect("dns response");

    assert_eq!(&response[0..2], &0x1234_u16.to_be_bytes());
    assert_eq!(&response[2..4], &0x8180_u16.to_be_bytes());
    assert_eq!(&response[6..8], &1_u16.to_be_bytes());
    assert_eq!(&response[response.len() - 4..], &[10, 88, 0, 10]);
}

#[test]
fn dns_returns_name_error_for_unknown_medium_hostname() {
    let network = VirtualNetwork::new(&[]).unwrap();
    let response = answer_query(&query_a(0x1234, "missing.medium"), &network).expect("dns response");

    assert_eq!(&response[2..4], &0x8183_u16.to_be_bytes());
    assert_eq!(&response[6..8], &0_u16.to_be_bytes());
}

#[test]
fn packet_device_queues_are_first_in_first_out() {
    let mut device = PacketDevice::new(1280);
    assert_eq!(device.receive_packet(), None);
    assert_eq!(device.pop_tun_packet(), None);
    device.push_tun_packet(vec![1]);
    device.push_tun_packet(vec![2]);
    device.transmit_packet(vec![3]);
    device.transmit_packet(vec![4]);
    assert_eq!(device.receive_packet(), Some(vec![1]));
    assert_eq!(device.receive_packet(), Some(vec![2]));
    assert_eq!(device.receive_packet(), None);
    assert_eq!(device.pop_tun_packet(), Some(vec![3]));
    assert_eq!(device.pop_tun_packet(), Some(vec![4]));
    assert_eq!(device.pop_tun_packet(), None);
}

#[test]
fn hostnames_collapse_punctuation_and_trim_dashes() {
    assert_eq!(service_hostname("--My  Docs!!"), "my-docs.medium");
    assert_eq!(service_hostname("API v2"), "api-v2.medium");
    assert_eq!(service_hostname("___"), "service.medium");
}

#[test]
fn every_hostname_resolves_back_to_its_service() {
    let network = VirtualNetwork::new(&[
        svc("a", Some("Alpha")),
        svc("b", Some("Beta Site")),
        svc("c", None),
    ])
    .unwrap();
    for (i, service) in network.services().iter().enumerate() {
        let found = network.resolve_hostname(&service.hostname).unwrap();
        assert_eq!(found.addr, service.addr);
        assert_eq!(service.addr, [10, 88, 0, 10 + i as u8]);
        assert_eq!(network.service_for_addr(service.addr).unwrap().id, service.id);
    }
    assert_eq!(network.resolve_hostname("BETA-SITE.MEDIUM").unwrap().id, "b");
    assert!(network.resolve_hostname("gamma.medium").is_none());
    assert!(network.service_for_addr([10, 88, 0, 99]).is_none());
}

#[test]
fn too_many_services_are_refused() {
    let services: Vec<PublishedService> = (0..202).map(|i| svc(&format!("s{i}"), None)).collect();
    assert_eq!(VirtualNetwork::new(&services).unwrap_err(), NetworkError::TooManyServices);
    assert!(VirtualNetwork::new(&services[..201]).is_ok());
}

#[test]
fn service_addresses_stay_inside_the_subnet() {
    assert_eq!(service_addr(0), Ok([10, 88, 0, 10]));
    assert_eq!(service_addr(244), Ok([10, 88, 0, 254]));
    assert_eq!(service_addr(245), Err(NetworkError::AddressOutsideSubnet));
}

#[test]
fn names_are_normalized_for_lookup() {
    assert_eq!(normalize_name(b"Docs.Medium.."), b"docs.medium".to_vec());
}

#[test]
fn dns_query_round_trips_through_the_parser() {
    let packet = query_a(7, "hello.medium");
    let query = parse_query(&packet).unwrap();
    assert_eq!(query.name, b"hello.medium".to_vec());
    assert_eq!(query.qtype, 1);
    assert_eq!(query.qclass, 1);
    assert_eq!(query.question_end, packet.len());
    assert!(parse_query(&packet[..5]).is_none());
}

#[test]
fn malformed_dns_packets_get_no_answer() {
    let network = VirtualNetwork::new(&[svc("hello", None)]).unwrap();
    assert!(answer_query(&[0u8; 11], &network).is_none());
    let mut two_questions = query_a(1, "hello.medium");
    two_questions[5] = 2;
    assert!(answer_query(&two_questions, &network).is_none());
}

#[test]
fn tcp_stream_ids_and_redirects() {
    assert_eq!(tcp_stream_id(1), "tcp-1");
    assert_eq!(tcp_stream_id(42), "tcp-42");
    assert_eq!(
        redirect_response("hello.medium"),
        "HTTP/1.1 308 Permanent Redirect\r\nLocation: https://hello.medium/\r\nContent-Length: 0\r\nConnection: close\r\n\r\n"
    );
}

#[test]
fn events_name_the_service_at_the_local_address() {
    let network = VirtualNetwork::new(&[svc("hello", None), svc("docs", None)]).unwrap();
    assert_eq!(event_service_id(&network, Some([10, 88, 0, 11]), "fallback"), "docs");
    assert_eq!(event_service_id(&network, Some([10, 88, 0, 99]), "fallback"), "fallback");
    assert_eq!(event_service_id(&network, None, "fallback"), "fallback");
}

#[test]
fn missing_listeners_cover_http_and_https_per_service() {
    let network = VirtualNetwork::new(&[svc("hello", None), svc("docs", None)]).unwrap();
    let slots = vec![
        SlotState { service_id: "hello".into(), port: 80, has_stream: false, listening: true },
        SlotState { service_id: "hello".into(), port: 443, has_stream: true, listening: true },
        SlotState { service_id: "docs".into(), port: 443, has_stream: false, listening: true },
    ];
    assert_eq!(missing_listeners(&network, &slots), vec![(0, 443), (1, 80)]);
    assert_eq!(missing_listeners(&network, &Vec::new()), vec![(0, 80), (0, 443), (1, 80), (1, 443)]);
}

#[test]
fn services_sharing_an_id_share_their_listeners() {
    let network = VirtualNetwork::new(&[svc("hello", None), svc("hello", Some("other"))]).unwrap();
    assert_eq!(missing_listeners(&network, &Vec::new()), vec![(0, 80), (0, 443)]);
}

#[test]
fn pump_decisions_per_slot() {
    let https = stream_start(443, true, false);
    assert!(https.open_stream && https.announce);
    let http = stream_start(80, true, false);
    assert!(http.open_stream && !http.announce);
    let busy = stream_start(443, true, true);
    assert!(!busy.open_stream && !busy.announce);
    assert!(!stream_start(443, false, false).open_stream);
    assert_eq!(slot_io(80, true), SlotIo::Redirect);
    assert_eq!(slot_io(443, true), SlotIo::Deliver);
    assert_eq!(slot_io(443, false), SlotIo::Idle);
    assert!(stream_finished(false, false));
    assert!(!stream_finished(true, false));
    assert!(!stream_finished(false, true));
}
