use ubuntu_miracast_server::net_backend::native::{
    alloc_from_pool, build_reply, format_mac, in_pool, lease_of, push_opt, DhcpServer, Ipv4,
    DHCP_ACK, DHCP_DISCOVER, DHCP_OFFER, DHCP_REQUEST, OPT_DNS, OPT_END, OPT_LEASE_TIME,
    OPT_MSG_TYPE, OPT_REQUESTED_IP, OPT_ROUTER, OPT_SUBNET_MASK, OP_REPLY, POOL_FIRST, POOL_LAST,
};
use ubuntu_miracast_server::net_backend::subprocess::SubprocessNetBackend;
use ubuntu_miracast_server::net_backend::{choose_net_backend, NetChoice};

const COOKIE: [u8; 4] = [99, 130, 83, 99];

fn packet(mac: [u8; 6], kind: u8, wanted: Option<[u8; 4]>) -> Vec<u8> {
    let mut p = vec![0u8; 240];
    p[0] = 1;
    p[1] = 1;
    p[2] = 6;
    p[4..8].copy_from_slice(&[0xde, 0xad, 0xbe, 0xef]);
    p[28..34].copy_from_slice(&mac);
    p[236..240].copy_from_slice(&COOKIE);
    p.push(0);
    push_opt(&mut p, OPT_MSG_TYPE, &[kind]);
    if let Some(ip) = wanted {
        push_opt(&mut p, OPT_REQUESTED_IP, &ip);
    }
    p.push(OPT_END);
    p
}

fn find_opt(pkt: &[u8], code: u8) -> Option<Vec<u8>> {
    let mut i = 240;
    while i < pkt.len() && pkt[i] != OPT_END {
        if pkt[i] == 0 {
            i += 1;
            continue;
        }
        let len = pkt[i + 1] as usize;
        if pkt[i] == code {
            return Some(pkt[i + 2..i + 2 + len].to_vec());
        }
        i += 2 + len;
    }
    None
}

#[test]
fn discover_yields_offer_in_pool_and_records_lease() {
    let mut server = DhcpServer::new();
    let mac = [0x00, 0x11, 0x22, 0x33, 0x44, 0x55];
    let reply = server.handle_packet(&packet(mac, DHCP_DISCOVER, None)).expect("offer");
    assert_eq!(reply[0], OP_REPLY);
    let yiaddr = Ipv4(reply[16], reply[17], reply[18], reply[19]);
    assert!(in_pool(&yiaddr), "offered {yiaddr:?} not in pool");
    assert!(server.leases.contains_key("00:11:22:33:44:55"));
}

#[test]
fn reply_carries_router_and_dns_options() {
    let reply = build_reply(&[1, 2, 3, 4], &[0, 1, 2, 3, 4, 5], Ipv4(192, 168, 173, 1), DHCP_ACK);
    assert!(find_opt(&reply, OPT_ROUTER) == Some(vec![192, 168, 173, 1]));
    assert!(find_opt(&reply, OPT_DNS) == Some(vec![192, 168, 173, 1]));
    assert!(find_opt(&reply, OPT_SUBNET_MASK) == Some(vec![255, 255, 255, 0]));
    assert!(find_opt(&reply, OPT_LEASE_TIME) == Some(vec![0, 0, 1, 44]));
    assert_eq!(&reply[4..8], &[1, 2, 3, 4]);
    assert_eq!(&reply[28..34], &[0, 1, 2, 3, 4, 5]);
    assert_eq!(&reply[20..24], &[192, 168, 173, 1]);
    assert_eq!(&reply[236..240], &COOKIE);
    assert_eq!(reply.len(), 274);
}

#[test]
fn pool_wraps_at_end() {
    let mut next = POOL_LAST;
    let _ = alloc_from_pool(&mut next);
    assert_eq!(next, POOL_FIRST);
}

#[test]
fn station_keeps_its_address() {
    let mut server = DhcpServer::new();
    let mac = [0xAA, 1, 2, 3, 4, 5];
    let offer = server.handle_packet(&packet(mac, DHCP_DISCOVER, Some([192, 168, 173, 85]))).unwrap();
    assert_eq!(&offer[16..20], &[192, 168, 173, 85]);
    assert_eq!(find_opt(&offer, OPT_MSG_TYPE), Some(vec![DHCP_OFFER]));
    let other = server.handle_packet(&packet([1; 6], DHCP_DISCOVER, Some([10, 0, 0, 1]))).unwrap();
    assert_eq!(&other[16..20], &[192, 168, 173, 80]);
    let ack = server.handle_packet(&packet(mac, DHCP_REQUEST, Some([192, 168, 173, 86]))).unwrap();
    assert_eq!(&ack[16..20], &[192, 168, 173, 85]);
    assert_eq!(find_opt(&ack, OPT_MSG_TYPE), Some(vec![DHCP_ACK]));
    assert_eq!(server.next, 81);
    assert_eq!(lease_of(&server.leases, "AA:01:02:03:04:05"), Some("192.168.173.85".to_string()));
    assert_eq!(lease_of(&server.leases, "AA:01:02:03:04:06"), None);
}

#[test]
fn other_packets_are_not_answered() {
    let mut server = DhcpServer::new();
    assert!(server.handle_packet(&[0; 100]).is_none());
    assert!(server.handle_packet(&[0; 300]).is_none());
    assert!(server.handle_packet(&packet([1; 6], 8, None)).is_none());
    let mut cut = packet([1; 6], DHCP_DISCOVER, None);
    cut.truncate(242);
    assert!(server.handle_packet(&cut).is_none());
    assert_eq!(server.next, 80);
    assert_eq!(format_mac(&[0, 0xAB]), "00:ab");
    assert_eq!(format_mac(&[1, 2, 3, 4, 5, 6, 7]), "01:02:03:04:05:06");
}

#[test]
fn outside_programs_get_their_words() {
    let b = SubprocessNetBackend;
    let v: Vec<String> = b.address_setup("p2p-0").iter().map(|c| c.join(" ")).collect();
    assert_eq!(
        v,
        vec![
            "sudo pkill -f dnsmasq.*p2p-0",
            "sudo ip addr flush dev p2p-0",
            "sudo ip addr add 192.168.173.1/24 dev p2p-0",
            "sudo ip link set p2p-0 up",
        ]
    );
    assert_eq!(
        b.dhcp_server("p2p-0").join(" "),
        "sudo dnsmasq --interface=p2p-0 --bind-interfaces \
         --dhcp-range=192.168.173.80,192.168.173.90,255.255.255.0,5m --dhcp-option=3,192.168.173.1 \
         --dhcp-option=6,192.168.173.1 --no-daemon --log-facility=- --except-interface=lo \
         --no-resolv --no-hosts"
    );
    assert_eq!(choose_net_backend(Some("Native")), NetChoice::Native);
    assert_eq!(choose_net_backend(Some("")), NetChoice::Subprocess);
    assert_eq!(choose_net_backend(None), NetChoice::Subprocess);
}
