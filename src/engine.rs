//! The lease engine: the server context (configuration, address pool, lease
//! table) and the protocol's transitions. A transition that needs a liveness
//! probe of an address stops and asks for it; the caller probes and hands the
//! answer back.

use vstd::prelude::*;
use crate::codec::{
    encode, encoded, parse_options, OPTIONS_START, first_option, lemma_decode_encoded, options_view, writable_option,
    DhcpHeader, DhcpOption, DhcpPacket, BOOTREPLY, BOOTREQUEST, CHADDR, CIADDR,
    FLAGS, GIADDR, HTYPE_ETHER, OP, XID,
};
use crate::ipv4::{
    be16_value, be32_bytes, be32_value, mac_value, make_big_endian_vec_from_u32, u8_to_ipv4addr,
    Ipv4Net,
};
use crate::lease::{
    has_mac, active_holds, any_holds, lemma_lookup_active, lemma_put, lemma_put_active, lookup, put,
    unique_macs, LeaseRecord, LeaseStore,
};
use crate::pool::{lemma_without, without, AddressPool};

verus! {

pub const DHCPDISCOVER: u8 = 1;
pub const DHCPOFFER: u8 = 2;
pub const DHCPREQUEST: u8 = 3;
pub const DHCPACK: u8 = 5;
pub const DHCPNAK: u8 = 6;
pub const DHCPRELEASE: u8 = 7;

pub const CODE_SUBNET_MASK: u8 = 1;
pub const CODE_ROUTER: u8 = 3;
pub const CODE_DNS: u8 = 6;
pub const CODE_REQUESTED_IP: u8 = 50;
pub const CODE_LEASE_TIME: u8 = 51;
pub const CODE_MESSAGE_TYPE: u8 = 53;
pub const CODE_SERVER_ID: u8 = 54;

/// The server's configuration, fixed for the life of the process.
#[derive(Clone, Copy, Debug, PartialEq, Eq, Structural)]
pub struct ServerConfig {
    pub network: Ipv4Net,
    pub server_address: u32,
    pub default_gateway: u32,
    pub subnet_mask: u32,
    pub dns_server: u32,
    /// Lease duration in seconds.
    pub lease_time: u32,
}

impl ServerConfig {
    pub open spec fn wf(&self) -> bool {
        self.network.wf()
    }

    /// Addresses never leased: network, broadcast, gateway, server, DNS.
    pub open spec fn spec_is_reserved(&self, ip: u32) -> bool {
        ip == self.network.network || ip == self.network.broadcast || ip == self.default_gateway
            || ip == self.server_address || ip == self.dns_server
    }

    pub fn is_reserved(&self, ip: u32) -> (r: bool)
        ensures
            r == self.spec_is_reserved(ip),
    {
        ip == self.network.network || ip == self.network.broadcast || ip == self.default_gateway
            || ip == self.server_address || ip == self.dns_server
    }
}

/// Where a candidate address came from.
#[derive(Clone, Copy, Debug, PartialEq, Eq, Structural)]
pub enum Candidate {
    /// The client's own active lease, offered again.
    PriorLease,
    /// The client's requested-address option, free in the pool.
    Requested,
    /// Taken from the pool.
    PoolPick,
    /// A REQUEST without server identifier, for an address free in the pool.
    Reallocation,
}

#[derive(Clone, Copy, Debug, PartialEq, Eq, Structural)]
pub enum DhcpError {
    /// The message carries no message-type option.
    MissingMessageType,
    /// A message type this server does not handle.
    UnknownMessageType(u8),
    /// No address could be found for a DISCOVER.
    NoAddressAvailable,
    /// A REQUEST for this server without a requested-address option.
    MissingRequestedAddress,
}

/// What the caller must do next.
#[derive(Clone, Copy, Debug, PartialEq, Eq, Structural)]
pub enum Step {
    /// Probe `ip` for liveness and hand the answer to `probe_answered`.
    Probe { ip: u32, source: Candidate },
    /// Send a reply of `message_type` leasing `ip` (zero for a NAK).
    Reply { message_type: u8, ip: u32 },
    /// Send nothing.
    NoReply,
    /// The datagram is dropped.
    Failed(DhcpError),
}

/// The address held in a four-byte option value.
pub open spec fn ipv4_option(v: Option<Seq<u8>>) -> Option<u32> {
    match v {
        Some(b) => if b.len() == 4 {
            Some(be32_value(b) as u32)
        } else {
            None
        },
        None => None,
    }
}

/// The message type of decoded options: the first byte of its option.
pub open spec fn message_type(opts: Seq<(u8, Seq<u8>)>) -> Option<u8> {
    match first_option(opts, CODE_MESSAGE_TYPE) {
        Some(v) => if v.len() > 0 {
            Some(v[0])
        } else {
            None
        },
        None => None,
    }
}

/// The requested-address option of decoded options.
pub open spec fn requested_ip(opts: Seq<(u8, Seq<u8>)>) -> Option<u32> {
    ipv4_option(first_option(opts, CODE_REQUESTED_IP))
}

pub open spec fn packet_mac(p: DhcpPacket) -> u64 {
    mac_value(p.bytes().subrange(CHADDR as int, CHADDR + 6)) as u64
}

pub open spec fn packet_ciaddr(p: DhcpPacket) -> u32 {
    be32_value(p.bytes().subrange(CIADDR as int, CIADDR + 4)) as u32
}

/// The client's active lease, when its address lies in the network.
pub open spec fn prior_lease(leases: Seq<LeaseRecord>, config: ServerConfig, mac: u64) -> Option<
    u32,
> {
    match lookup(leases, mac) {
        Some(p) => if !p.1 && config.network.spec_contains(p.0) {
            Some(p.0)
        } else {
            None
        },
        None => None,
    }
}

/// Take the address served next from the pool, to be probed.
pub open spec fn pool_pick_step(pool: Seq<u32>) -> (Step, Seq<u32>) {
    if pool.len() == 0 {
        (Step::Failed(DhcpError::NoAddressAvailable), pool)
    } else {
        (Step::Probe { ip: pool.last(), source: Candidate::PoolPick }, pool.drop_last())
    }
}

/// Whether a requested address is given and free in the pool.
pub open spec fn requested_free(pool: Seq<u32>, requested: Option<u32>) -> bool {
    match requested {
        Some(q) => pool.contains(q),
        None => false,
    }
}

/// Take the requested address when it is free, else the next from the pool.
pub open spec fn requested_pick_step(pool: Seq<u32>, requested: Option<u32>) -> (Step, Seq<u32>) {
    match requested {
        Some(q) => if pool.contains(q) {
            (Step::Probe { ip: q, source: Candidate::Requested }, without(pool, q))
        } else {
            pool_pick_step(pool)
        },
        None => pool_pick_step(pool),
    }
}

/// The first candidate for a DISCOVER: the client's prior lease, else the
/// requested address, else the pool.
pub open spec fn select_step(
    pool: Seq<u32>,
    leases: Seq<LeaseRecord>,
    config: ServerConfig,
    mac: u64,
    requested: Option<u32>,
) -> (Step, Seq<u32>) {
    match prior_lease(leases, config, mac) {
        Some(ip) => (Step::Probe { ip, source: Candidate::PriorLease }, pool),
        None => requested_pick_step(pool, requested),
    }
}

/// Record an active lease of `ip` for `mac`, the address out of the pool.
pub open spec fn commit(pool: Seq<u32>, leases: Seq<LeaseRecord>, mac: u64, ip: u32) -> (
    Step,
    Seq<u32>,
    Seq<LeaseRecord>,
) {
    (
        Step::Reply { message_type: DHCPACK, ip },
        without(pool, ip),
        put(leases, LeaseRecord { mac, ip, released: false }),
    )
}

pub open spec fn nak(pool: Seq<u32>, leases: Seq<LeaseRecord>) -> (
    Step,
    Seq<u32>,
    Seq<LeaseRecord>,
) {
    (Step::Reply { message_type: DHCPNAK, ip: 0 }, pool, leases)
}

/// A REQUEST answering an offer: ignored unless the server identifier is
/// ours; then the requested address is leased.
pub open spec fn offer_accepted(
    pool: Seq<u32>,
    leases: Seq<LeaseRecord>,
    config: ServerConfig,
    mac: u64,
    server_id: Seq<u8>,
    requested: Option<u32>,
) -> (Step, Seq<u32>, Seq<LeaseRecord>) {
    if ipv4_option(Some(server_id)) != Some(config.server_address) {
        (Step::NoReply, pool, leases)
    } else {
        match requested {
            Some(ip) => commit(pool, leases, mac, ip),
            None => (Step::Failed(DhcpError::MissingRequestedAddress), pool, leases),
        }
    }
}

/// A REQUEST without server identifier, for `wanted`. The client's own active
/// lease is confirmed. Otherwise it is refused (NAK) when there is no address,
/// when it lies outside the network or is reserved, or when it is not free in
/// the pool; a free one is taken out of the pool and probed.
pub open spec fn reallocate_step(
    pool: Seq<u32>,
    leases: Seq<LeaseRecord>,
    config: ServerConfig,
    mac: u64,
    wanted: Option<u32>,
) -> (Step, Seq<u32>, Seq<LeaseRecord>) {
    match wanted {
        None => nak(pool, leases),
        Some(ip) => if lookup(leases, mac) == Some((ip, false)) {
            commit(pool, leases, mac, ip)
        } else if !config.network.spec_contains(ip) || config.spec_is_reserved(ip)
            || !pool.contains(ip) {
            nak(pool, leases)
        } else {
            (Step::Probe { ip, source: Candidate::Reallocation }, without(pool, ip), leases)
        },
    }
}

/// The address a REQUEST without server identifier asks for: its
/// requested-address option, else a nonzero client address.
pub open spec fn wanted_ip(opts: Seq<(u8, Seq<u8>)>, ciaddr: u32) -> Option<u32> {
    match requested_ip(opts) {
        Some(ip) => Some(ip),
        None => if ciaddr != 0 {
            Some(ciaddr)
        } else {
            None
        },
    }
}

/// Whether a released address may go back to the pool.
pub open spec fn returnable(config: ServerConfig, leases: Seq<LeaseRecord>, ip: u32) -> bool {
    config.network.spec_contains(ip) && !config.spec_is_reserved(ip) && !active_holds(leases, ip)
}

/// A RELEASE: the client's active lease is marked released and its address
/// returns to the pool, at the end served last.
pub open spec fn release_step(
    pool: Seq<u32>,
    leases: Seq<LeaseRecord>,
    config: ServerConfig,
    mac: u64,
) -> (Seq<u32>, Seq<LeaseRecord>) {
    match lookup(leases, mac) {
        Some(p) => if !p.1 {
            let after = put(leases, LeaseRecord { mac, ip: p.0, released: true });
            if returnable(config, after, p.0) {
                (seq![p.0] + pool, after)
            } else {
                (pool, after)
            }
        } else {
            (pool, leases)
        },
        None => (pool, leases),
    }
}

/// The answer of a probe of `ip`. Silence makes the candidate good: an OFFER,
/// or for a reallocation the lease and an ACK. An answer means the address is
/// in use: it stays out of the pool and the next candidate is tried, or a
/// reallocation is refused.
pub open spec fn probed_step(
    pool: Seq<u32>,
    leases: Seq<LeaseRecord>,
    mac: u64,
    requested: Option<u32>,
    ip: u32,
    source: Candidate,
    in_use: bool,
) -> (Step, Seq<u32>, Seq<LeaseRecord>) {
    if !in_use {
        match source {
            Candidate::Reallocation => commit(pool, leases, mac, ip),
            _ => (Step::Reply { message_type: DHCPOFFER, ip }, pool, leases),
        }
    } else {
        match source {
            Candidate::PriorLease => {
                let (s, p) = requested_pick_step(pool, requested);
                (s, p, leases)
            },
            Candidate::Reallocation => nak(pool, leases),
            _ => {
                let (s, p) = pool_pick_step(pool);
                (s, p, leases)
            },
        }
    }
}

/// The pool holds no duplicate, and only addresses of the network that are
/// neither reserved nor held by an active lease.
pub open spec fn pool_clean(pool: Seq<u32>, leases: Seq<LeaseRecord>, config: ServerConfig) -> bool {
    &&& pool.no_duplicates()
    &&& forall|x: u32| #[trigger]
        pool.contains(x) ==> config.network.spec_contains(x) && !config.spec_is_reserved(x)
            && !active_holds(leases, x)
}

/// The server context: configuration, address pool and lease table, used by
/// one handler at a time.
#[derive(Clone)]
pub struct DhcpServer {
    address_pool: AddressPool,
    leases: LeaseStore,
    config: ServerConfig,
}

impl DhcpServer {
    pub closed spec fn pool_view(&self) -> Seq<u32> {
        self.address_pool@
    }

    pub closed spec fn leases_view(&self) -> Seq<LeaseRecord> {
        self.leases@
    }

    pub closed spec fn config_view(&self) -> ServerConfig {
        self.config
    }

    pub open spec fn inv(&self) -> bool {
        &&& self.config_view().wf()
        &&& unique_macs(self.leases_view())
        &&& pool_clean(self.pool_view(), self.leases_view(), self.config_view())
    }

    pub fn config(&self) -> (r: &ServerConfig)
        ensures
            *r == self.config_view(),
    {
        &self.config
    }

    pub fn leases(&self) -> (r: &LeaseStore)
        ensures
            r@ == self.leases_view(),
            self.inv() ==> r.wf(),
    {
        &self.leases
    }

    pub fn address_pool(&self) -> (r: &AddressPool)
        ensures
            r@ == self.pool_view(),
    {
        &self.address_pool
    }
}

/// Every address of the network that is not reserved and that no lease row
/// names, highest first, so that the lowest is served first.
pub fn init_address_pool(config: &ServerConfig, leases: &LeaseStore) -> (r: AddressPool)
    requires
        config.wf(),
    ensures
        r.wf(),
        forall|i: int, j: int| 0 <= i < j < r@.len() ==> r@[i] > r@[j],
        forall|x: u32| #[trigger]
            r@.contains(x) <==> (config.network.spec_contains(x) && !config.spec_is_reserved(x)
                && !any_holds(leases@, x)),
{
    let network = config.network.network;
    let mut addrs: Vec<u32> = Vec::new();
    let mut a: u64 = config.network.broadcast as u64 + 1;
    while a > network as u64
        invariant
            network == config.network.network,
            network as u64 <= a <= config.network.broadcast as u64 + 1,
            forall|i: int| 0 <= i < addrs@.len() ==> a <= #[trigger] addrs@[i],
            forall|i: int, j: int| 0 <= i < j < addrs@.len() ==> addrs@[i] > addrs@[j],
            forall|x: u32| #[trigger]
                addrs@.contains(x) <==> (a <= x && config.network.spec_contains(x)
                    && !config.spec_is_reserved(x) && !any_holds(leases@, x)),
        decreases a,
    {
        a = a - 1;
        let ip = a as u32;
        if !config.is_reserved(ip) && !leases.has_ip(ip) {
            let ghost before = addrs@;
            addrs.push(ip);
            proof {
                assert forall|x: u32| #[trigger] addrs@.contains(x) <==> (a <= x
                    && config.network.spec_contains(x) && !config.spec_is_reserved(x)
                    && !any_holds(leases@, x)) by {
                    if addrs@.contains(x) {
                        let k = choose|k: int| 0 <= k < addrs@.len() && addrs@[k] == x;
                        if k < before.len() {
                            assert(before[k] == x);
                            assert(before.contains(x));
                        }
                    }
                    if a <= x && config.network.spec_contains(x) && !config.spec_is_reserved(x)
                        && !any_holds(leases@, x) {
                        if x == ip {
                            assert(addrs@[before.len() as int] == x);
                        } else {
                            assert(before.contains(x));
                            let k = choose|k: int| 0 <= k < before.len() && before[k] == x;
                            assert(addrs@[k] == x);
                        }
                    }
                }
            }
        } else {
            assert forall|x: u32| #[trigger] addrs@.contains(x) <==> (a <= x
                && config.network.spec_contains(x) && !config.spec_is_reserved(x) && !any_holds(
                leases@,
                x,
            )) by {
                if addrs@.contains(x) {
                    let k = choose|k: int| 0 <= k < addrs@.len() && addrs@[k] == x;
                    assert(a <= addrs@[k]);
                }
            }
        }
    }
    let pool = AddressPool::from_vec(addrs);
    proof {
        assert forall|i: int, j: int| 0 <= i < pool@.len() && 0 <= j < pool@.len() && i != j implies pool@[i]
            != pool@[j] by {
            if i < j {
                assert(pool@[i] > pool@[j]);
            } else {
                assert(pool@[j] > pool@[i]);
            }
        }
    }
    pool
}

impl DhcpServer {
    /// The server over `config` and the lease table `leases`, its pool
    /// filled by `init_address_pool`.
    pub fn new(config: ServerConfig, leases: LeaseStore) -> (r: DhcpServer)
        requires
            config.wf(),
            leases.wf(),
        ensures
            r.inv(),
            r.config_view() == config,
            r.leases_view() == leases@,
            forall|x: u32| #[trigger]
                r.pool_view().contains(x) <==> (config.network.spec_contains(x)
                    && !config.spec_is_reserved(x) && !any_holds(leases@, x)),
            forall|i: int, j: int|
                0 <= i < j < r.pool_view().len() ==> r.pool_view()[i] > r.pool_view()[j],
    {
        let address_pool = init_address_pool(&config, &leases);
        let r = DhcpServer { address_pool, leases, config };
        proof {
            assert forall|x: u32| #[trigger] r.pool_view().contains(x) implies !active_holds(
                r.leases_view(),
                x,
            ) by {
                if active_holds(r.leases_view(), x) {
                    let i = choose|i: int|
                        0 <= i < r.leases_view().len() && r.leases_view()[i].ip == x
                            && !r.leases_view()[i].released;
                    assert(any_holds(r.leases_view(), x));
                }
            }
        }
        r
    }

    /// The server with the pool `addrs` (served from the end), or `None` when
    /// an address repeats, lies outside the network, is reserved, or is held
    /// by an active lease.
    pub fn with_pool(config: ServerConfig, leases: LeaseStore, addrs: Vec<u32>) -> (r: Option<
        DhcpServer,
    >)
        requires
            config.wf(),
            leases.wf(),
        ensures
            pool_clean(addrs@, leases@, config) ==> (r matches Some(s) && s.inv()
                && s.config_view() == config && s.leases_view() == leases@ && s.pool_view()
                == addrs@),
            !pool_clean(addrs@, leases@, config) ==> r is None,
    {
        let mut i: usize = 0;
        while i < addrs.len()
            invariant
                0 <= i <= addrs@.len(),
                forall|k: int| 0 <= k < i ==> {
                    let x = #[trigger] addrs@[k];
                    config.network.spec_contains(x) && !config.spec_is_reserved(x)
                        && !active_holds(leases@, x)
                },
                forall|k: int, j: int| 0 <= k < i && 0 <= j < addrs@.len() && k != j ==> addrs@[k]
                    != addrs@[j],
            decreases addrs@.len() - i,
        {
            let x = addrs[i];
            if !config.network.contains(x) || config.is_reserved(x) || leases.has_active_ip(x) {
                proof {
                    assert(addrs@.contains(x));
                }
                return None;
            }
            let mut j: usize = 0;
            while j < addrs.len()
                invariant
                    0 <= i < addrs@.len(),
                    x == addrs@[i as int],
                    0 <= j <= addrs@.len(),
                    forall|m: int| 0 <= m < j && m != i ==> addrs@[m] != x,
                decreases addrs@.len() - j,
            {
                if j != i && addrs[j] == x {
                    return None;
                }
                j = j + 1;
            }
            i = i + 1;
        }
        let address_pool = AddressPool::from_vec(addrs);
        let r = DhcpServer { address_pool, leases, config };
        proof {
            assert forall|x: u32| #[trigger] r.pool_view().contains(x) implies config.network.spec_contains(x)
                && !config.spec_is_reserved(x) && !active_holds(leases@, x) by {
                let k = choose|k: int| 0 <= k < r.pool_view().len() && r.pool_view()[k] == x;
                assert(addrs@[k] == x);
            }
        }
        Some(r)
    }
}

/// A pool that keeps only addresses of a clean pool is clean.
proof fn lemma_clean_subset(
    pool: Seq<u32>,
    smaller: Seq<u32>,
    leases: Seq<LeaseRecord>,
    config: ServerConfig,
)
    requires
        pool_clean(pool, leases, config),
        smaller.no_duplicates(),
        forall|x: u32| #[trigger] smaller.contains(x) ==> pool.contains(x),
    ensures
        pool_clean(smaller, leases, config),
{
    assert forall|x: u32| #[trigger] smaller.contains(x) implies config.network.spec_contains(x)
        && !config.spec_is_reserved(x) && !active_holds(leases, x) by {
        assert(pool.contains(x));
    }
}

/// The requested-address option of a packet.
fn read_requested(packet: &DhcpPacket) -> (r: Option<u32>)
    ensures
        r == requested_ip(packet.opts()),
{
    match packet.get_option(CODE_REQUESTED_IP) {
        Some(v) => u8_to_ipv4addr(v.as_slice()),
        None => None,
    }
}

/// The message type of a packet.
fn read_message_type(packet: &DhcpPacket) -> (r: Option<u8>)
    ensures
        r == message_type(packet.opts()),
{
    match packet.get_option(CODE_MESSAGE_TYPE) {
        Some(v) => if v.len() > 0 {
            Some(v[0])
        } else {
            None
        },
        None => None,
    }
}

impl DhcpServer {
    /// Takes the next address from the pool, to be probed.
    pub fn pick_from_pool(&mut self) -> (r: Step)
        requires
            old(self).inv(),
        ensures
            final(self).inv(),
            final(self).config_view() == old(self).config_view(),
            final(self).leases_view() == old(self).leases_view(),
            (r, final(self).pool_view()) == pool_pick_step(old(self).pool_view()),
    {
        let ghost pre = self.pool_view();
        match self.address_pool.pick_available_ip() {
            Some(ip) => {
                proof {
                    crate::pool::lemma_drop_last(pre);
                    lemma_clean_subset(pre, self.pool_view(), self.leases_view(), self.config);
                }
                Step::Probe { ip, source: Candidate::PoolPick }
            },
            None => Step::Failed(DhcpError::NoAddressAvailable),
        }
    }

    /// Takes the requested address out of the pool when it is free there;
    /// `None`, the pool untouched, when there is none or it is not free.
    pub fn obtain_avaliable_ip_from_requested_option(&mut self, requested: Option<u32>) -> (r:
        Option<u32>)
        requires
            old(self).inv(),
        ensures
            final(self).inv(),
            final(self).config_view() == old(self).config_view(),
            final(self).leases_view() == old(self).leases_view(),
            requested matches Some(q) ==> (old(self).pool_view().contains(q) ==> (r == Some(q)
                && final(self).pool_view() == without(old(self).pool_view(), q))),
            !requested_free(old(self).pool_view(), requested) ==> r is None
                && final(self).pool_view() == old(self).pool_view(),
    {
        let ghost pre = self.pool_view();
        match requested {
            Some(q) => {
                let r = self.address_pool.pick_specified_ip(q);
                proof {
                    lemma_without(pre, q);
                    lemma_clean_subset(pre, self.pool_view(), self.leases_view(), self.config);
                }
                r
            },
            None => None,
        }
    }

    /// The requested address when it is free in the pool, else the next
    /// address of the pool, to be probed.
    fn requested_or_pool(&mut self, requested: Option<u32>) -> (r: Step)
        requires
            old(self).inv(),
        ensures
            final(self).inv(),
            final(self).config_view() == old(self).config_view(),
            final(self).leases_view() == old(self).leases_view(),
            (r, final(self).pool_view()) == requested_pick_step(old(self).pool_view(), requested),
    {
        match self.obtain_avaliable_ip_from_requested_option(requested) {
            Some(ip) => Step::Probe { ip, source: Candidate::Requested },
            None => self.pick_from_pool(),
        }
    }

    /// The first candidate for a DISCOVER from `mac`: its prior active lease
    /// when that lies in the network, else the requested address, else the
    /// pool.
    pub fn select_lease_ip(&mut self, mac: u64, requested: Option<u32>) -> (r: Step)
        requires
            old(self).inv(),
        ensures
            final(self).inv(),
            final(self).config_view() == old(self).config_view(),
            final(self).leases_view() == old(self).leases_view(),
            (r, final(self).pool_view()) == select_step(
                old(self).pool_view(),
                old(self).leases_view(),
                old(self).config_view(),
                mac,
                requested,
            ),
    {
        if let Some((ip, released)) = self.leases.select(mac) {
            if !released && self.config.network.contains(ip) {
                return Step::Probe { ip, source: Candidate::PriorLease };
            }
        }
        self.requested_or_pool(requested)
    }

    /// Handles a DISCOVER: the first candidate address, to be probed.
    pub fn dhcp_discover_message_handler(&mut self, packet: &DhcpPacket) -> (r: Step)
        requires
            old(self).inv(),
            packet.wf(),
        ensures
            final(self).inv(),
            final(self).config_view() == old(self).config_view(),
            final(self).leases_view() == old(self).leases_view(),
            (r, final(self).pool_view()) == select_step(
                old(self).pool_view(),
                old(self).leases_view(),
                old(self).config_view(),
                packet_mac(*packet),
                requested_ip(packet.opts()),
            ),
    {
        let mac = packet.get_chaddr();
        let requested = read_requested(packet);
        self.select_lease_ip(mac, requested)
    }

    /// Records an active lease of `ip` for `mac`, taking `ip` out of the pool.
    fn commit_lease(&mut self, mac: u64, ip: u32) -> (r: Step)
        requires
            old(self).inv(),
        ensures
            final(self).inv(),
            final(self).config_view() == old(self).config_view(),
            (r, final(self).pool_view(), final(self).leases_view()) == commit(
                old(self).pool_view(),
                old(self).leases_view(),
                mac,
                ip,
            ),
    {
        let ghost pre_pool = self.pool_view();
        let ghost pre_leases = self.leases_view();
        let _ = self.address_pool.pick_specified_ip(ip);
        match self.leases.select(mac) {
            Some((_, false)) => {
                self.leases.update(mac, ip, false);
            },
            _ => {
                let _ = self.leases.insert(mac, ip);
            },
        }
        proof {
            let rec = LeaseRecord { mac, ip, released: false };
            lemma_without(pre_pool, ip);
            lemma_put(pre_leases, rec);
            assert forall|x: u32| #[trigger] self.pool_view().contains(x) implies self.config.network.spec_contains(x)
                && !self.config.spec_is_reserved(x) && !active_holds(self.leases_view(), x) by {
                assert(pre_pool.contains(x));
                lemma_put_active(pre_leases, rec, x);
            }
        }
        Step::Reply { message_type: DHCPACK, ip }
    }
}

/// The transition for one inbound message.
pub open spec fn handle_step(
    pool: Seq<u32>,
    leases: Seq<LeaseRecord>,
    config: ServerConfig,
    p: DhcpPacket,
) -> (Step, Seq<u32>, Seq<LeaseRecord>) {
    if p.bytes()[OP as int] != BOOTREQUEST {
        (Step::NoReply, pool, leases)
    } else {
        match message_type(p.opts()) {
            None => (Step::Failed(DhcpError::MissingMessageType), pool, leases),
            Some(t) => if t == DHCPDISCOVER {
                let (s, q) = select_step(
                    pool,
                    leases,
                    config,
                    packet_mac(p),
                    requested_ip(p.opts()),
                );
                (s, q, leases)
            } else if t == DHCPREQUEST {
                match first_option(p.opts(), CODE_SERVER_ID) {
                    Some(sid) => offer_accepted(
                        pool,
                        leases,
                        config,
                        packet_mac(p),
                        sid,
                        requested_ip(p.opts()),
                    ),
                    None => reallocate_step(
                        pool,
                        leases,
                        config,
                        packet_mac(p),
                        wanted_ip(p.opts(), packet_ciaddr(p)),
                    ),
                }
            } else if t == DHCPRELEASE {
                let (q, l) = release_step(pool, leases, config, packet_mac(p));
                (Step::NoReply, q, l)
            } else {
                (Step::Failed(DhcpError::UnknownMessageType(t)), pool, leases)
            },
        }
    }
}

impl DhcpServer {
    /// Handles a REQUEST that carries a server identifier: ignored when the
    /// identifier is not this server's address; otherwise the requested
    /// address is leased to the client and acknowledged.
    pub fn dhcp_request_message_handler_responded_to_offer(
        &mut self,
        packet: &DhcpPacket,
        server_id: &[u8],
    ) -> (r: Step)
        requires
            old(self).inv(),
            packet.wf(),
        ensures
            final(self).inv(),
            final(self).config_view() == old(self).config_view(),
            (r, final(self).pool_view(), final(self).leases_view()) == offer_accepted(
                old(self).pool_view(),
                old(self).leases_view(),
                old(self).config_view(),
                packet_mac(*packet),
                server_id@,
                requested_ip(packet.opts()),
            ),
    {
        match u8_to_ipv4addr(server_id) {
            Some(server_ip) => {
                if server_ip != self.config.server_address {
                    return Step::NoReply;
                }
            },
            None => {
                return Step::NoReply;
            },
        }
        match read_requested(packet) {
            Some(ip) => {
                let mac = packet.get_chaddr();
                self.commit_lease(mac, ip)
            },
            None => Step::Failed(DhcpError::MissingRequestedAddress),
        }
    }

    /// Handles a REQUEST without server identifier: the client's own active
    /// lease is confirmed; an address free in the pool is taken and probed;
    /// anything else is refused with a NAK.
    pub fn dhcp_request_message_handler_to_reallocate(&mut self, packet: &DhcpPacket) -> (r:
        Step)
        requires
            old(self).inv(),
            packet.wf(),
        ensures
            final(self).inv(),
            final(self).config_view() == old(self).config_view(),
            (r, final(self).pool_view(), final(self).leases_view()) == reallocate_step(
                old(self).pool_view(),
                old(self).leases_view(),
                old(self).config_view(),
                packet_mac(*packet),
                wanted_ip(packet.opts(), packet_ciaddr(*packet)),
            ),
    {
        let mac = packet.get_chaddr();
        let wanted = match read_requested(packet) {
            Some(ip) => Some(ip),
            None => {
                let ciaddr = packet.get_ciaddr();
                if ciaddr != 0 {
                    Some(ciaddr)
                } else {
                    None
                }
            },
        };
        match wanted {
            None => Step::Reply { message_type: DHCPNAK, ip: 0 },
            Some(ip) => {
                let current = self.leases.select(mac);
                if current == Some((ip, false)) {
                    self.commit_lease(mac, ip)
                } else if !self.config.network.contains(ip) || self.config.is_reserved(ip)
                    || !self.address_pool.contains(ip) {
                    Step::Reply { message_type: DHCPNAK, ip: 0 }
                } else {
                    let ghost pre = self.pool_view();
                    let _ = self.address_pool.pick_specified_ip(ip);
                    proof {
                        lemma_without(pre, ip);
                        lemma_clean_subset(pre, self.pool_view(), self.leases_view(), self.config);
                    }
                    Step::Probe { ip, source: Candidate::Reallocation }
                }
            },
        }
    }

    /// Handles a RELEASE: the client's active lease is marked released and
    /// its address returned to the pool, when it lies in the network, is not
    /// reserved and no other active lease holds it. Nothing is sent.
    pub fn dhcp_release_message_handler(&mut self, packet: &DhcpPacket) -> (r: Step)
        requires
            old(self).inv(),
            packet.wf(),
        ensures
            final(self).inv(),
            final(self).config_view() == old(self).config_view(),
            r == Step::NoReply,
            (final(self).pool_view(), final(self).leases_view()) == release_step(
                old(self).pool_view(),
                old(self).leases_view(),
                old(self).config_view(),
                packet_mac(*packet),
            ),
    {
        let mac = packet.get_chaddr();
        let ghost pre_pool = self.pool_view();
        let ghost pre_leases = self.leases_view();
        if let Some((ip, released)) = self.leases.select(mac) {
            if !released {
                let rec = LeaseRecord { mac, ip, released: true };
                proof {
                    lemma_lookup_active(pre_leases, mac);
                    lemma_put(pre_leases, rec);
                    assert forall|x: u32| #[trigger] pre_pool.contains(x) implies !active_holds(
                        put(pre_leases, rec),
                        x,
                    ) by {
                        lemma_put_active(pre_leases, rec, x);
                    }
                }
                self.leases.update(mac, ip, true);
                if self.config.network.contains(ip) && !self.config.is_reserved(ip)
                    && !self.leases.has_active_ip(ip) {
                    self.address_pool.release_address(ip);
                    proof {
                        assert forall|x: u32| #[trigger] self.pool_view().contains(x) implies self.config.network.spec_contains(x)
                            && !self.config.spec_is_reserved(x) && !active_holds(
                            self.leases_view(),
                            x,
                        ) by {
                            if x != ip {
                                let k = choose|k: int|
                                    0 <= k < self.pool_view().len() && self.pool_view()[k] == x;
                                assert(pre_pool[k - 1] == x);
                                assert(pre_pool.contains(x));
                            }
                        }
                    }
                }
            }
        }
        Step::NoReply
    }

    /// Continues after the probe of `ip`, a candidate from `source`, with
    /// `in_use` telling whether some host answered.
    pub fn probe_answered(
        &mut self,
        packet: &DhcpPacket,
        ip: u32,
        source: Candidate,
        in_use: bool,
    ) -> (r: Step)
        requires
            old(self).inv(),
            packet.wf(),
        ensures
            final(self).inv(),
            final(self).config_view() == old(self).config_view(),
            (r, final(self).pool_view(), final(self).leases_view()) == probed_step(
                old(self).pool_view(),
                old(self).leases_view(),
                packet_mac(*packet),
                requested_ip(packet.opts()),
                ip,
                source,
                in_use,
            ),
    {
        if !in_use {
            match source {
                Candidate::Reallocation => {
                    let mac = packet.get_chaddr();
                    self.commit_lease(mac, ip)
                },
                _ => Step::Reply { message_type: DHCPOFFER, ip },
            }
        } else {
            match source {
                Candidate::PriorLease => {
                    let requested = read_requested(packet);
                    self.requested_or_pool(requested)
                },
                Candidate::Reallocation => Step::Reply { message_type: DHCPNAK, ip: 0 },
                _ => self.pick_from_pool(),
            }
        }
    }

    /// Handles one inbound message: anything but a BOOTREQUEST is ignored;
    /// then by message type DISCOVER, REQUEST (with or without server
    /// identifier) and RELEASE are handled and any other type fails.
    pub fn dhcp_handler(&mut self, packet: &DhcpPacket) -> (r: Step)
        requires
            old(self).inv(),
            packet.wf(),
        ensures
            final(self).inv(),
            final(self).config_view() == old(self).config_view(),
            (r, final(self).pool_view(), final(self).leases_view()) == handle_step(
                old(self).pool_view(),
                old(self).leases_view(),
                old(self).config_view(),
                *packet,
            ),
    {
        if packet.get_op() != BOOTREQUEST {
            return Step::NoReply;
        }
        match read_message_type(packet) {
            None => Step::Failed(DhcpError::MissingMessageType),
            Some(t) => {
                if t == DHCPDISCOVER {
                    self.dhcp_discover_message_handler(packet)
                } else if t == DHCPREQUEST {
                    match packet.get_option(CODE_SERVER_ID) {
                        Some(sid) => self.dhcp_request_message_handler_responded_to_offer(
                            packet,
                            sid.as_slice(),
                        ),
                        None => self.dhcp_request_message_handler_to_reallocate(packet),
                    }
                } else if t == DHCPRELEASE {
                    self.dhcp_release_message_handler(packet)
                } else {
                    Step::Failed(DhcpError::UnknownMessageType(t))
                }
            },
        }
    }
}

/// The header of a reply to `p` of `mt` leasing `ip`: the transaction id,
/// flags, relay address and hardware address are the client's; the client
/// address is echoed in an ACK only.
pub open spec fn reply_header(p: DhcpPacket, mt: u8, ip: u32) -> DhcpHeader {
    DhcpHeader {
        op: BOOTREPLY,
        htype: HTYPE_ETHER,
        hlen: 6,
        xid: be32_value(p.bytes().subrange(XID as int, XID + 4)) as u32,
        secs: 0,
        flags: be16_value(p.bytes().subrange(FLAGS as int, FLAGS + 2)) as u16,
        ciaddr: if mt == DHCPACK {
            packet_ciaddr(p)
        } else {
            0
        },
        yiaddr: ip,
        siaddr: 0,
        giaddr: be32_value(p.bytes().subrange(GIADDR as int, GIADDR + 4)) as u32,
        chaddr: packet_mac(p),
    }
}

/// The options of a reply of `mt`, in the order written.
pub open spec fn reply_options(config: ServerConfig, mt: u8) -> Seq<(u8, Seq<u8>)> {
    seq![
        (CODE_MESSAGE_TYPE, seq![mt]),
        (CODE_LEASE_TIME, be32_bytes(config.lease_time)),
        (CODE_SERVER_ID, be32_bytes(config.server_address)),
        (CODE_SUBNET_MASK, be32_bytes(config.subnet_mask)),
        (CODE_ROUTER, be32_bytes(config.default_gateway)),
        (CODE_DNS, be32_bytes(config.dns_server)),
    ]
}

fn option_of(code: u8, value: Vec<u8>) -> (r: DhcpOption)
    ensures
        r@ == (code, value@),
{
    DhcpOption { code, value }
}

/// Builds the reply of `message_type` to `received_packet`, leasing
/// `ip_to_be_leased`.
pub fn make_dhcp_packet(
    received_packet: &DhcpPacket,
    config: &ServerConfig,
    message_type: u8,
    ip_to_be_leased: u32,
) -> (r: DhcpPacket)
    requires
        received_packet.wf(),
    ensures
        r.wf(),
        r.bytes() == encoded(
            reply_header(*received_packet, message_type, ip_to_be_leased),
            reply_options(*config, message_type),
        ),
        r.opts() == reply_options(*config, message_type),
{
    let ciaddr = if message_type == DHCPACK {
        received_packet.get_ciaddr()
    } else {
        0
    };
    let header = DhcpHeader {
        op: BOOTREPLY,
        htype: HTYPE_ETHER,
        hlen: 6,
        xid: received_packet.get_xid(),
        secs: 0,
        flags: received_packet.get_flags(),
        ciaddr,
        yiaddr: ip_to_be_leased,
        siaddr: 0,
        giaddr: received_packet.get_giaddr(),
        chaddr: received_packet.get_chaddr(),
    };
    let mut mt: Vec<u8> = Vec::new();
    mt.push(message_type);
    let mut options: Vec<DhcpOption> = Vec::new();
    options.push(option_of(CODE_MESSAGE_TYPE, mt));
    options.push(option_of(CODE_LEASE_TIME, make_big_endian_vec_from_u32(config.lease_time)));
    options.push(option_of(CODE_SERVER_ID, make_big_endian_vec_from_u32(config.server_address)));
    options.push(option_of(CODE_SUBNET_MASK, make_big_endian_vec_from_u32(config.subnet_mask)));
    options.push(option_of(CODE_ROUTER, make_big_endian_vec_from_u32(config.default_gateway)));
    options.push(option_of(CODE_DNS, make_big_endian_vec_from_u32(config.dns_server)));
    let ghost want = reply_options(*config, message_type);
    assert(options_view(options@) =~= want);
    assert(mt@ =~= seq![message_type]);
    assert forall|i: int| 0 <= i < options@.len() implies writable_option(#[trigger] options@[i]@) by {
        assert(options@[i]@ == want[i]);
    }
    let bytes = encode(&header, &options);
    proof {
        lemma_decode_encoded(header, want);
    }
    DhcpPacket::from_bytes(bytes)
}

/// A DISCOVER from a client whose active lease `l` lies in the network
/// proposes `l` for probing without touching the pool, and when the probe
/// stays silent `l` is offered.
pub proof fn lemma_discover_offers_prior_lease(
    pool: Seq<u32>,
    leases: Seq<LeaseRecord>,
    config: ServerConfig,
    p: DhcpPacket,
    l: u32,
)
    requires
        p.bytes()[OP as int] == BOOTREQUEST,
        message_type(p.opts()) == Some(DHCPDISCOVER),
        lookup(leases, packet_mac(p)) == Some((l, false)),
        config.network.spec_contains(l),
    ensures
        handle_step(pool, leases, config, p) == (
            Step::Probe { ip: l, source: Candidate::PriorLease },
            pool,
            leases,
        ),
        probed_step(
            pool,
            leases,
            packet_mac(p),
            requested_ip(p.opts()),
            l,
            Candidate::PriorLease,
            false,
        ) == (Step::Reply { message_type: DHCPOFFER, ip: l }, pool, leases),
{
}

/// A REQUEST whose server identifier is not this server's address gets no
/// reply and changes nothing.
pub proof fn lemma_request_for_other_server_ignored(
    pool: Seq<u32>,
    leases: Seq<LeaseRecord>,
    config: ServerConfig,
    p: DhcpPacket,
    sid: Seq<u8>,
)
    requires
        p.bytes()[OP as int] == BOOTREQUEST,
        message_type(p.opts()) == Some(DHCPREQUEST),
        first_option(p.opts(), CODE_SERVER_ID) == Some(sid),
        ipv4_option(Some(sid)) != Some(config.server_address),
    ensures
        handle_step(pool, leases, config, p) == (Step::NoReply, pool, leases),
{
}

/// A RELEASE from a client with active lease `l` keeps its row, now marked
/// released, and changes no other row. When `l` lies in the network, is not
/// reserved and no other client holds it actively, `l` goes back to the pool
/// at the end served last; it was not in the pool before.
pub proof fn lemma_release_returns_lease(
    pool: Seq<u32>,
    leases: Seq<LeaseRecord>,
    config: ServerConfig,
    mac: u64,
    l: u32,
)
    requires
        unique_macs(leases),
        pool_clean(pool, leases, config),
        lookup(leases, mac) == Some((l, false)),
    ensures
        ({
            let (pool2, leases2) = release_step(pool, leases, config, mac);
            &&& lookup(leases2, mac) == Some((l, true))
            &&& leases2.len() == leases.len()
            &&& forall|m: u64| m != mac ==> lookup(leases2, m) == lookup(leases, m)
            &&& !pool.contains(l)
            &&& (config.network.spec_contains(l) && !config.spec_is_reserved(l) && (forall|i: int|
                0 <= i < leases.len() && leases[i].mac != mac ==> !(leases[i].ip == l
                    && !leases[i].released))) ==> pool2 == seq![l] + pool && pool2.contains(l)
        }),
{
    let rec = LeaseRecord { mac, ip: l, released: true };
    let after = put(leases, rec);
    lemma_put(leases, rec);
    lemma_lookup_active(leases, mac);
    assert(has_mac(leases, mac));
    if config.network.spec_contains(l) && !config.spec_is_reserved(l) && (forall|i: int|
        0 <= i < leases.len() && leases[i].mac != mac ==> !(leases[i].ip == l
            && !leases[i].released)) {
        if active_holds(after, l) {
            let i = choose|i: int| 0 <= i < after.len() && after[i].ip == l && !after[i].released;
            assert(after[i] != rec);
            assert(after[i] == leases[i]);
        }
        assert(returnable(config, after, l));
        assert((seq![l] + pool)[0] == l);
    }
}

/// An OFFER encoded with its options decodes to message type OFFER.
pub proof fn lemma_offer_round_trip(h: DhcpHeader, config: ServerConfig)
    ensures
        ({
            let e = encoded(h, reply_options(config, DHCPOFFER));
            first_option(parse_options(e.subrange(OPTIONS_START as int, e.len() as int)), CODE_MESSAGE_TYPE)
                == Some(seq![DHCPOFFER])
        }),
{
    let opts = reply_options(config, DHCPOFFER);
    assert forall|i: int| 0 <= i < opts.len() implies writable_option(#[trigger] opts[i]) by {}
    lemma_decode_encoded(h, opts);
}

} // verus!
