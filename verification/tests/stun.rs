use rtp_engine::net::{IpAddr, SocketAddr};
use rtp_engine::stun::{
    build_binding_request, conclude, new_binding_request, parse_binding_response,
    parse_mapped_address, parse_xor_mapped_address, Discovery, StunReply,
};
use rtp_engine::{Error, StunResult, DEFAULT_STUN_SERVERS};

#[test]
fn test_build_binding_request() {
    let txn_id = [1, 2, 3, 4, 5, 6, 7, 8, 9, 10, 11, 12];
    let request = build_binding_request(&txn_id);

    assert_eq!(request.len(), 20);
    assert_eq!(&request[0..2], &[0x00, 0x01]); // Binding Request
    assert_eq!(&request[2..4], &[0x00, 0x00]); // Length 0
    assert_eq!(&request[4..8], &[0x21, 0x12, 0xA4, 0x42]); // Magic cookie
    assert_eq!(&request[8..20], &txn_id);
}

#[test]
fn test_parse_xor_mapped_address() {
    // XOR-MAPPED-ADDRESS for 192.0.2.1:32853
    // Magic cookie: 0x2112A442
    // Port: 32853 = 0x8055, XOR'd with 0x2112 = 0xA147
    // IP: 192.0.2.1 = 0xC0000201, XOR'd with 0x2112A442 = 0xE112A643
    let data = [
        0x00, 0x01, // Reserved + Family (IPv4)
        0xA1, 0x47, // X-Port (32853 XOR 0x2112)
        0xE1, 0x12, 0xA6, 0x43, // X-Address (0xC0000201 XOR 0x2112A442)
    ];

    let SocketAddr { ip, port } = parse_xor_mapped_address(&data).unwrap();
    assert_eq!(ip, IpAddr::v4(192, 0, 2, 1));
    assert_eq!(port, 32853);
}

#[test]
fn test_stun_result_is_natted() {
    let result = StunResult {
        public_ip: IpAddr::v4(203, 0, 113, 1),
        public_port: 12345,
        local_ip: IpAddr::v4(192, 168, 1, 100),
        local_port: 5000,
    };
    assert!(result.is_natted());

    let result_no_nat = StunResult {
        public_ip: IpAddr::v4(203, 0, 113, 1),
        public_port: 5000,
        local_ip: IpAddr::v4(203, 0, 113, 1),
        local_port: 5000,
    };
    assert!(!result_no_nat.is_natted());
}

const TXN: [u8; 12] = [1, 2, 3, 4, 5, 6, 7, 8, 9, 10, 11, 12];

fn response(kind: u16, txn: &[u8; 12], attributes: &[u8]) -> Vec<u8> {
    let mut out = kind.to_be_bytes().to_vec();
    out.extend_from_slice(&(attributes.len() as u16).to_be_bytes());
    out.extend_from_slice(&[0x21, 0x12, 0xa4, 0x42]);
    out.extend_from_slice(txn);
    out.extend_from_slice(attributes);
    out
}

#[test]
fn a_response_tells_the_masked_address() {
    let attributes = [0, 0x20, 0, 8, 0, 1, 0xa1, 0x47, 0xe1, 0x12, 0xa6, 0x43];
    let addr = parse_binding_response(&response(0x0101, &TXN, &attributes), &TXN).unwrap();
    assert_eq!(addr, SocketAddr { ip: IpAddr::v4(192, 0, 2, 1), port: 32853 });
}

#[test]
fn a_response_tells_the_plain_address() {
    let attributes = [
        0x80, 0x22, 0, 3, b'a', b'b', b'c', 0, 0, 1, 0, 8, 0, 1, 0x80, 0x55, 192, 0, 2, 1,
    ];
    let addr = parse_binding_response(&response(0x0101, &TXN, &attributes), &TXN).unwrap();
    assert_eq!(addr, SocketAddr { ip: IpAddr::v4(192, 0, 2, 1), port: 32853 });
}

#[test]
fn other_responses_are_refused() {
    let attributes = [0, 1, 0, 8, 0, 1, 0x80, 0x55, 192, 0, 2, 1];
    let good = response(0x0101, &TXN, &attributes);
    let refused = |data: &[u8]| matches!(parse_binding_response(data, &TXN), Err(Error::Stun(_)));
    assert!(!refused(&good));
    assert!(refused(&good[..19]));
    assert!(refused(&response(0x0111, &TXN, &attributes)));
    assert!(refused(&response(0x0101, &[0; 12], &attributes)));
    assert!(refused(&response(0x0101, &TXN, &[])));
    let mut other_cookie = good.clone();
    other_cookie[4] = 0;
    assert!(refused(&other_cookie));
}

#[test]
fn addresses_of_other_families_or_cut_short_are_refused() {
    assert!(parse_xor_mapped_address(&[0, 1, 0, 0, 1, 2, 3]).is_err());
    assert!(parse_xor_mapped_address(&[0, 9, 0, 0, 1, 2, 3, 4]).is_err());
    assert!(parse_mapped_address(&[0, 1, 0, 0, 1, 2, 3]).is_err());
    assert!(parse_mapped_address(&[0, 9, 0, 0, 1, 2, 3, 4]).is_err());
    let addr = parse_mapped_address(&[0, 1, 0x12, 0x34, 10, 0, 0, 7]).unwrap();
    assert_eq!(addr, SocketAddr { ip: IpAddr::v4(10, 0, 0, 7), port: 0x1234 });
}

#[test]
fn new_requests_have_new_transactions() {
    let (a, request) = new_binding_request();
    let (b, _) = new_binding_request();
    assert_ne!(a, b);
    assert_eq!(request, build_binding_request(&a));
}

#[test]
fn a_reply_concludes_a_request() {
    let attributes = [0, 1, 0, 8, 0, 1, 0x80, 0x55, 192, 0, 2, 1];
    let good = response(0x0101, &TXN, &attributes);
    let addr = conclude("stun.example", &TXN, StunReply::Received(good)).unwrap();
    assert_eq!(addr.port, 32853);
    let lost = std::io::Error::new(std::io::ErrorKind::Other, "lost");
    let failed = conclude("stun.example", &TXN, StunReply::Failed(lost)).unwrap_err();
    assert!(matches!(failed, Error::Network(_)));
    let late = conclude("stun.example", &TXN, StunReply::TimedOut).unwrap_err();
    assert_eq!(late.message(), "STUN error: STUN request timed out");
    let unknown = conclude("stun.example", &TXN, StunReply::Unresolved).unwrap_err();
    assert_eq!(
        unknown.message(),
        "STUN error: Could not resolve STUN server: stun.example"
    );
}

#[test]
fn discovery_asks_each_server_once() {
    let mut discovery = Discovery::new();
    for expected in DEFAULT_STUN_SERVERS {
        assert_eq!(discovery.server(), Some(expected));
        discovery.failed(Error::stun(expected));
    }
    assert_eq!(discovery.server(), None);
    let none_asked = Discovery::new().into_error();
    assert_eq!(none_asked.message(), "STUN error: All STUN servers failed");
    let e = discovery.into_error();
    assert_eq!(e.message(), format!("STUN error: {}", DEFAULT_STUN_SERVERS[4]));
}

#[test]
fn a_result_gives_its_addresses() {
    let public = SocketAddr { ip: IpAddr::v4(203, 0, 113, 1), port: 9 };
    let local = SocketAddr { ip: IpAddr::v4(10, 0, 0, 1), port: 9 };
    let result = StunResult::new(public, local);
    assert_eq!(result.public_addr(), public);
    assert_eq!(result.local_addr(), local);
    assert!(result.is_natted());
}
