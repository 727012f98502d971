use dhcp_server::codec::{encode, DhcpHeader, DhcpOption, DhcpPacket};
use dhcp_server::engine::{
    init_address_pool, make_dhcp_packet, Candidate, DhcpError, DhcpServer, ServerConfig, Step,
    DHCPACK, DHCPNAK, DHCPOFFER,
};
use dhcp_server::ipv4::Ipv4Net;
use dhcp_server::lease::LeaseStore;

const MAC: u64 = 0x0200_0000_0001;

fn ip(a: u8, b: u8, c: u8, d: u8) -> u32 {
    u32::from_be_bytes([a, b, c, d])
}

fn config() -> ServerConfig {
    ServerConfig {
        network: Ipv4Net::new(ip(10, 0, 0, 0), ip(10, 0, 0, 255)).unwrap(),
        server_address: ip(10, 0, 0, 1),
        default_gateway: ip(10, 0, 0, 254),
        subnet_mask: ip(255, 255, 255, 0),
        dns_server: ip(10, 0, 0, 2),
        lease_time: 3600,
    }
}

fn small_config() -> ServerConfig {
    ServerConfig {
        network: Ipv4Net::new(ip(10, 0, 0, 0), ip(10, 0, 0, 7)).unwrap(),
        server_address: ip(10, 0, 0, 1),
        default_gateway: ip(10, 0, 0, 2),
        subnet_mask: ip(255, 255, 255, 248),
        dns_server: ip(10, 0, 0, 3),
        lease_time: 60,
    }
}

fn message(op: u8, mac: u64, ciaddr: u32, options: Vec<(u8, Vec<u8>)>) -> DhcpPacket {
    let header = DhcpHeader {
        op,
        htype: 1,
        hlen: 6,
        xid: 0x1234_5678,
        secs: 0,
        flags: 0x8000,
        ciaddr,
        yiaddr: 0,
        siaddr: 0,
        giaddr: 0,
        chaddr: mac,
    };
    let opts: Vec<DhcpOption> =
        options.into_iter().map(|(code, value)| DhcpOption { code, value }).collect();
    DhcpPacket::new(encode(&header, &opts)).unwrap()
}

fn discover(mac: u64, requested: Option<u32>) -> DhcpPacket {
    let mut o = vec![(53, vec![1])];
    if let Some(r) = requested {
        o.push((50, r.to_be_bytes().to_vec()));
    }
    message(1, mac, 0, o)
}

fn request(mac: u64, server: Option<u32>, requested: Option<u32>, ciaddr: u32) -> DhcpPacket {
    let mut o = vec![(53, vec![3])];
    if let Some(s) = server {
        o.push((54, s.to_be_bytes().to_vec()));
    }
    if let Some(r) = requested {
        o.push((50, r.to_be_bytes().to_vec()));
    }
    message(1, mac, ciaddr, o)
}

fn release(mac: u64) -> DhcpPacket {
    message(1, mac, 0, vec![(53, vec![7])])
}

#[test]
fn pool_excludes_reserved_and_leased_addresses() {
    let mut leases = LeaseStore::new();
    leases.insert(9, ip(10, 0, 0, 5)).unwrap();
    leases.insert(8, ip(10, 0, 0, 6)).unwrap();
    leases.update(8, ip(10, 0, 0, 6), true);
    let mut pool = init_address_pool(&small_config(), &leases);
    assert_eq!(pool.len(), 1);
    assert_eq!(pool.pick_available_ip(), Some(ip(10, 0, 0, 4)));
}

#[test]
fn fresh_pool_serves_lowest_first() {
    let mut server = DhcpServer::new(config(), LeaseStore::new());
    assert_eq!(server.address_pool().len(), 251);
    assert!(!server.address_pool().contains(ip(10, 0, 0, 1)));
    assert!(!server.address_pool().contains(ip(10, 0, 0, 255)));
    let step = server.dhcp_handler(&discover(MAC, None));
    assert_eq!(step, Step::Probe { ip: ip(10, 0, 0, 3), source: Candidate::PoolPick });
}

#[test]
fn discover_offers_from_seeded_pool() {
    let mut server =
        DhcpServer::with_pool(config(), LeaseStore::new(), vec![ip(10, 0, 0, 5), ip(10, 0, 0, 6)])
            .unwrap();
    let d = discover(MAC, None);
    let step = server.dhcp_handler(&d);
    assert_eq!(step, Step::Probe { ip: ip(10, 0, 0, 6), source: Candidate::PoolPick });
    let step = server.probe_answered(&d, ip(10, 0, 0, 6), Candidate::PoolPick, false);
    assert_eq!(step, Step::Reply { message_type: DHCPOFFER, ip: ip(10, 0, 0, 6) });
    let reply = make_dhcp_packet(&d, server.config(), DHCPOFFER, ip(10, 0, 0, 6));
    assert_eq!(reply.get_yiaddr(), ip(10, 0, 0, 6));
    assert_eq!(reply.get_op(), 2);
    assert_eq!(reply.get_xid(), 0x1234_5678);
    assert_eq!(reply.get_chaddr(), MAC);
    assert_eq!(reply.get_option(53), Some(vec![DHCPOFFER]));
    assert_eq!(reply.get_option(54), Some(vec![10, 0, 0, 1]));
    assert_eq!(reply.get_option(51), Some(vec![0, 0, 0x0e, 0x10]));
    assert_eq!(reply.get_option(1), Some(vec![255, 255, 255, 0]));
    assert_eq!(reply.get_option(3), Some(vec![10, 0, 0, 254]));
    assert_eq!(reply.get_option(6), Some(vec![10, 0, 0, 2]));
}

#[test]
fn with_pool_rejects_bad_addresses() {
    let c = config();
    assert!(DhcpServer::with_pool(c, LeaseStore::new(), vec![ip(10, 0, 0, 1)]).is_none());
    assert!(DhcpServer::with_pool(c, LeaseStore::new(), vec![ip(10, 0, 1, 1)]).is_none());
    assert!(DhcpServer::with_pool(c, LeaseStore::new(), vec![ip(10, 0, 0, 9), ip(10, 0, 0, 9)])
        .is_none());
    let mut leases = LeaseStore::new();
    leases.insert(MAC, ip(10, 0, 0, 9)).unwrap();
    assert!(DhcpServer::with_pool(c, leases, vec![ip(10, 0, 0, 9)]).is_none());
}

#[test]
fn conflicting_pool_address_is_skipped() {
    let mut server =
        DhcpServer::with_pool(config(), LeaseStore::new(), vec![ip(10, 0, 0, 5), ip(10, 0, 0, 6)])
            .unwrap();
    let d = discover(MAC, None);
    server.dhcp_handler(&d);
    let step = server.probe_answered(&d, ip(10, 0, 0, 6), Candidate::PoolPick, true);
    assert_eq!(step, Step::Probe { ip: ip(10, 0, 0, 5), source: Candidate::PoolPick });
    let step = server.probe_answered(&d, ip(10, 0, 0, 5), Candidate::PoolPick, true);
    assert_eq!(step, Step::Failed(DhcpError::NoAddressAvailable));
    assert_eq!(server.address_pool().len(), 0);
}

#[test]
fn discover_prefers_prior_lease() {
    let mut leases = LeaseStore::new();
    leases.insert(MAC, ip(10, 0, 0, 40)).unwrap();
    let mut server =
        DhcpServer::with_pool(config(), leases, vec![ip(10, 0, 0, 5), ip(10, 0, 0, 6)]).unwrap();
    let d = discover(MAC, Some(ip(10, 0, 0, 5)));
    let step = server.dhcp_handler(&d);
    assert_eq!(step, Step::Probe { ip: ip(10, 0, 0, 40), source: Candidate::PriorLease });
    assert_eq!(server.address_pool().len(), 2);
    let step = server.probe_answered(&d, ip(10, 0, 0, 40), Candidate::PriorLease, false);
    assert_eq!(step, Step::Reply { message_type: DHCPOFFER, ip: ip(10, 0, 0, 40) });
}

#[test]
fn prior_lease_outside_network_is_not_offered() {
    let mut leases = LeaseStore::new();
    leases.insert(MAC, ip(192, 168, 0, 9)).unwrap();
    let mut server =
        DhcpServer::with_pool(config(), leases, vec![ip(10, 0, 0, 5), ip(10, 0, 0, 6)]).unwrap();
    let step = server.dhcp_handler(&discover(MAC, None));
    assert_eq!(step, Step::Probe { ip: ip(10, 0, 0, 6), source: Candidate::PoolPick });
}

#[test]
fn discover_takes_free_requested_address() {
    let mut server = DhcpServer::with_pool(
        config(),
        LeaseStore::new(),
        vec![ip(10, 0, 0, 5), ip(10, 0, 0, 6), ip(10, 0, 0, 7)],
    )
    .unwrap();
    let d = discover(MAC, Some(ip(10, 0, 0, 5)));
    let step = server.dhcp_handler(&d);
    assert_eq!(step, Step::Probe { ip: ip(10, 0, 0, 5), source: Candidate::Requested });
    assert!(!server.address_pool().contains(ip(10, 0, 0, 5)));
    let step = server.probe_answered(&d, ip(10, 0, 0, 5), Candidate::Requested, true);
    assert_eq!(step, Step::Probe { ip: ip(10, 0, 0, 7), source: Candidate::PoolPick });
}

#[test]
fn request_for_this_server_is_acknowledged() {
    let mut server =
        DhcpServer::with_pool(config(), LeaseStore::new(), vec![ip(10, 0, 0, 5), ip(10, 0, 0, 6)])
            .unwrap();
    let r = request(MAC, Some(ip(10, 0, 0, 1)), Some(ip(10, 0, 0, 5)), 0);
    let step = server.dhcp_handler(&r);
    assert_eq!(step, Step::Reply { message_type: DHCPACK, ip: ip(10, 0, 0, 5) });
    assert_eq!(server.leases().select(MAC), Some((ip(10, 0, 0, 5), false)));
    assert!(!server.address_pool().contains(ip(10, 0, 0, 5)));
    let ack = make_dhcp_packet(&r, server.config(), DHCPACK, ip(10, 0, 0, 5));
    assert_eq!(ack.get_option(53), Some(vec![DHCPACK]));
    assert_eq!(ack.get_yiaddr(), ip(10, 0, 0, 5));
}

#[test]
fn request_for_other_server_gets_no_reply() {
    let mut server =
        DhcpServer::with_pool(config(), LeaseStore::new(), vec![ip(10, 0, 0, 5)]).unwrap();
    let r = request(MAC, Some(ip(10, 0, 0, 99)), Some(ip(10, 0, 0, 5)), 0);
    assert_eq!(server.dhcp_handler(&r), Step::NoReply);
    assert_eq!(server.leases().select(MAC), None);
    assert_eq!(server.address_pool().len(), 1);
}

#[test]
fn request_without_requested_address_fails() {
    let mut server = DhcpServer::new(config(), LeaseStore::new());
    let r = request(MAC, Some(ip(10, 0, 0, 1)), None, 0);
    assert_eq!(server.dhcp_handler(&r), Step::Failed(DhcpError::MissingRequestedAddress));
}

#[test]
fn renewal_of_own_lease_is_acknowledged() {
    let mut leases = LeaseStore::new();
    leases.insert(MAC, ip(10, 0, 0, 40)).unwrap();
    let mut server = DhcpServer::with_pool(config(), leases, vec![ip(10, 0, 0, 5)]).unwrap();
    let r = request(MAC, None, None, ip(10, 0, 0, 40));
    let step = server.dhcp_handler(&r);
    assert_eq!(step, Step::Reply { message_type: DHCPACK, ip: ip(10, 0, 0, 40) });
}

#[test]
fn reallocation_of_free_address_is_probed() {
    let mut server =
        DhcpServer::with_pool(config(), LeaseStore::new(), vec![ip(10, 0, 0, 5), ip(10, 0, 0, 6)])
            .unwrap();
    let r = request(MAC, None, Some(ip(10, 0, 0, 5)), 0);
    let step = server.dhcp_handler(&r);
    assert_eq!(step, Step::Probe { ip: ip(10, 0, 0, 5), source: Candidate::Reallocation });
    let step = server.probe_answered(&r, ip(10, 0, 0, 5), Candidate::Reallocation, false);
    assert_eq!(step, Step::Reply { message_type: DHCPACK, ip: ip(10, 0, 0, 5) });
    assert_eq!(server.leases().select(MAC), Some((ip(10, 0, 0, 5), false)));
}

#[test]
fn reallocation_is_refused_when_unavailable() {
    let mut server =
        DhcpServer::with_pool(config(), LeaseStore::new(), vec![ip(10, 0, 0, 5)]).unwrap();
    let nak = Step::Reply { message_type: DHCPNAK, ip: 0 };
    assert_eq!(server.dhcp_handler(&request(MAC, None, Some(ip(10, 0, 0, 8)), 0)), nak);
    assert_eq!(server.dhcp_handler(&request(MAC, None, Some(ip(10, 0, 0, 1)), 0)), nak);
    assert_eq!(server.dhcp_handler(&request(MAC, None, Some(ip(172, 16, 0, 1)), 0)), nak);
    assert_eq!(server.dhcp_handler(&request(MAC, None, None, 0)), nak);
    let r = request(MAC, None, Some(ip(10, 0, 0, 5)), 0);
    server.dhcp_handler(&r);
    assert_eq!(server.probe_answered(&r, ip(10, 0, 0, 5), Candidate::Reallocation, true), nak);
    assert_eq!(server.leases().select(MAC), None);
}

#[test]
fn release_returns_address_to_pool() {
    let mut leases = LeaseStore::new();
    leases.insert(MAC, ip(10, 0, 0, 40)).unwrap();
    let mut server =
        DhcpServer::with_pool(config(), leases, vec![ip(10, 0, 0, 5), ip(10, 0, 0, 6)]).unwrap();
    assert_eq!(server.dhcp_handler(&release(MAC)), Step::NoReply);
    assert_eq!(server.leases().select(MAC), Some((ip(10, 0, 0, 40), true)));
    assert!(server.address_pool().contains(ip(10, 0, 0, 40)));
    assert_eq!(server.address_pool().len(), 3);
    let step = server.dhcp_handler(&discover(0x0200_0000_0002, None));
    assert_eq!(step, Step::Probe { ip: ip(10, 0, 0, 6), source: Candidate::PoolPick });
}

#[test]
fn release_without_lease_changes_nothing() {
    let mut server =
        DhcpServer::with_pool(config(), LeaseStore::new(), vec![ip(10, 0, 0, 5)]).unwrap();
    assert_eq!(server.dhcp_handler(&release(MAC)), Step::NoReply);
    assert_eq!(server.address_pool().len(), 1);
    assert_eq!(server.leases().select(MAC), None);
}

#[test]
fn other_messages_are_not_served() {
    let mut server = DhcpServer::new(config(), LeaseStore::new());
    let inform = message(1, MAC, 0, vec![(53, vec![8])]);
    assert_eq!(server.dhcp_handler(&inform), Step::Failed(DhcpError::UnknownMessageType(8)));
    let bare = message(1, MAC, 0, vec![]);
    assert_eq!(server.dhcp_handler(&bare), Step::Failed(DhcpError::MissingMessageType));
    let reply = message(2, MAC, 0, vec![(53, vec![1])]);
    assert_eq!(server.dhcp_handler(&reply), Step::NoReply);
}

#[test]
fn requested_option_lookup_leaves_pool_alone_when_absent() {
    let mut server =
        DhcpServer::with_pool(config(), LeaseStore::new(), vec![ip(10, 0, 0, 5), ip(10, 0, 0, 6)])
            .unwrap();
    assert_eq!(server.obtain_avaliable_ip_from_requested_option(None), None);
    assert_eq!(server.address_pool().len(), 2);
    assert_eq!(server.obtain_avaliable_ip_from_requested_option(Some(ip(10, 0, 0, 9))), None);
    assert_eq!(server.address_pool().len(), 2);
    assert_eq!(
        server.obtain_avaliable_ip_from_requested_option(Some(ip(10, 0, 0, 5))),
        Some(ip(10, 0, 0, 5))
    );
    assert_eq!(server.address_pool().len(), 1);
    assert!(!server.address_pool().contains(ip(10, 0, 0, 5)));
}

#[test]
fn release_keeps_other_rows() {
    let mut leases = LeaseStore::new();
    leases.insert(MAC, ip(10, 0, 0, 40)).unwrap();
    leases.insert(0x0200_0000_0009, ip(10, 0, 0, 41)).unwrap();
    let mut server = DhcpServer::with_pool(config(), leases, vec![ip(10, 0, 0, 5)]).unwrap();
    assert_eq!(server.dhcp_handler(&release(MAC)), Step::NoReply);
    assert_eq!(server.leases().records().len(), 2);
    assert_eq!(server.leases().select(0x0200_0000_0009), Some((ip(10, 0, 0, 41), false)));
    assert_eq!(server.address_pool().len(), 2);
}
