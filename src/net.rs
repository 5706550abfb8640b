//! Address rules of the transport layer: which local addresses take part in
//! discovery, which IP family a socket uses, and where datagrams go.

use vstd::prelude::*;

use crate::error::SSDPError;

verus! {

/// Which IP families are used.
#[derive(Copy, Clone, Debug, PartialEq, Eq, Structural)]
pub enum IpVersionMode {
    V4Only,
    V6Only,
    Any,
}

/// An IP address: four octets, or eight 16-bit segments.
#[derive(Copy, Clone, Debug, PartialEq, Eq)]
pub enum IpAddress {
    V4([u8; 4]),
    V6([u16; 8]),
}

/// A socket address of either family.
#[derive(Copy, Clone, Debug, PartialEq, Eq)]
pub enum SocketAddress {
    V4 { ip: [u8; 4], port: u16 },
    V6 { ip: [u16; 8], port: u16, flowinfo: u32, scope_id: u32 },
}

impl SocketAddress {
    pub open spec fn spec_ip(self) -> IpAddress {
        match self {
            SocketAddress::V4 { ip, .. } => IpAddress::V4(ip),
            SocketAddress::V6 { ip, .. } => IpAddress::V6(ip),
        }
    }

    /// The IP address of the socket address.
    pub fn ip(&self) -> (r: IpAddress)
        ensures
            r == self.spec_ip(),
    {
        match self {
            SocketAddress::V4 { ip, .. } => IpAddress::V4(*ip),
            SocketAddress::V6 { ip, .. } => IpAddress::V6(*ip),
        }
    }
}

/// IPv6 addresses with no use for multicast discovery: the unspecified and
/// loopback addresses, the benchmarking range `2001:2::/48`, the documentation
/// range `2001:db8::/32`, unique-local `fc00::/7` and link-local `fe80::/10`.
pub open spec fn v6_excluded(s: Seq<u16>) -> bool {
    let unspecified = forall|i: int| 0 <= i < 8 ==> s[i] == 0;
    let loopback = (forall|i: int| 0 <= i < 7 ==> s[i] == 0) && s[7] == 1;
    let benchmarking = s[0] == 0x2001 && s[1] == 0x2 && s[2] == 0;
    let documentation = s[0] == 0x2001 && s[1] == 0xdb8;
    let unique_local = 0xfc00 <= s[0] <= 0xfdff;
    let link_local = 0xfe80 <= s[0] <= 0xfebf;
    unspecified || loopback || benchmarking || documentation || unique_local || link_local
}

/// Local addresses that take part in discovery: IPv4 addresses but loopback
/// (`127.0.0.0/8`), IPv6 addresses that `v6_excluded` leaves.
pub open spec fn spec_filter_policy(a: IpAddress) -> bool {
    match a {
        IpAddress::V4(o) => o@[0] != 127,
        IpAddress::V6(s) => !v6_excluded(s@),
    }
}

/// Whether an IPv6 address is of no use for multicast discovery.
pub fn is_not_globally(s: &[u16; 8]) -> (r: bool)
    ensures
        r == v6_excluded(s@),
{
    let mut all_zero = true;
    let mut i: usize = 0;
    while i < 7
        invariant
            i <= 7,
            all_zero == (forall|j: int| 0 <= j < i ==> s@[j] == 0),
        decreases 7 - i,
    {
        if s[i] != 0 {
            all_zero = false;
        }
        proof {
            if all_zero {
                assert forall|j: int| 0 <= j < i + 1 implies s@[j] == 0 by {}
            }
        }
        i = i + 1;
    }
    let unspecified = all_zero && s[7] == 0;
    let loopback = all_zero && s[7] == 1;
    proof {
        if !all_zero {
            assert(!(forall|j: int| 0 <= j < 8 ==> s@[j] == 0));
        } else {
            assert(forall|j: int| 0 <= j < 7 ==> s@[j] == 0);
        }
    }
    let benchmarking = s[0] == 0x2001 && s[1] == 0x2 && s[2] == 0;
    let documentation = s[0] == 0x2001 && s[1] == 0xdb8;
    let unique_local = s[0] >= 0xfc00 && s[0] <= 0xfdff;
    let link_local = s[0] >= 0xfe80 && s[0] <= 0xfebf;
    unspecified || loopback || benchmarking || documentation || unique_local || link_local
}

/// Whether a local address takes part in discovery.
pub fn filter_policy(a: &IpAddress) -> (r: bool)
    ensures
        r == spec_filter_policy(*a),
{
    match a {
        IpAddress::V4(o) => o[0] != 127,
        IpAddress::V6(s) => !is_not_globally(s),
    }
}

/// The IP family that a mode admits.
pub open spec fn spec_mode_admits(mode: IpVersionMode, a: IpAddress) -> bool {
    match (mode, a) {
        (IpVersionMode::Any, _) => true,
        (IpVersionMode::V4Only, IpAddress::V4(_)) => true,
        (IpVersionMode::V6Only, IpAddress::V6(_)) => true,
        _ => false,
    }
}

pub fn mode_admits(mode: IpVersionMode, a: &IpAddress) -> (r: bool)
    ensures
        r == spec_mode_admits(mode, *a),
{
    match (mode, a) {
        (IpVersionMode::Any, _) => true,
        (IpVersionMode::V4Only, IpAddress::V4(_)) => true,
        (IpVersionMode::V6Only, IpAddress::V6(_)) => true,
        _ => false,
    }
}

impl IpVersionMode {
    /// The mode that uses only the family of `addr`.
    pub fn from_addr(addr: &SocketAddress) -> (r: IpVersionMode)
        ensures
            r == match addr {
                SocketAddress::V4 { .. } => IpVersionMode::V4Only,
                SocketAddress::V6 { .. } => IpVersionMode::V6Only,
            },
    {
        match addr {
            SocketAddress::V4 { .. } => IpVersionMode::V4Only,
            SocketAddress::V6 { .. } => IpVersionMode::V6Only,
        }
    }
}

/// The local addresses of `found` that take part in discovery, in order.
pub open spec fn spec_local_addrs(found: Seq<SocketAddress>) -> Seq<SocketAddress>
    decreases found.len(),
{
    if found.len() == 0 {
        Seq::empty()
    } else {
        let prev = spec_local_addrs(found.drop_last());
        if spec_filter_policy(found.last().spec_ip()) {
            prev.push(found.last())
        } else {
            prev
        }
    }
}

/// Keeps the addresses that take part in discovery, in order.
pub fn local_addrs(found: &Vec<SocketAddress>) -> (r: Vec<SocketAddress>)
    ensures
        r@ == spec_local_addrs(found@),
{
    let mut out: Vec<SocketAddress> = Vec::new();
    let mut i: usize = 0;
    while i < found.len()
        invariant
            i <= found@.len(),
            out@ == spec_local_addrs(found@.subrange(0, i as int)),
        decreases found@.len() - i,
    {
        let a = found[i];
        proof {
            assert(found@.subrange(0, i + 1).drop_last() =~= found@.subrange(0, i as int));
            assert(found@.subrange(0, i + 1).last() == a);
        }
        if filter_policy(&a.ip()) {
            out.push(a);
        }
        i = i + 1;
    }
    proof {
        assert(found@.subrange(0, found@.len() as int) =~= found@);
    }
    out
}

/// The address that a sending socket for the local address `a` binds: the
/// same IP with a port that the system picks (0).
pub open spec fn spec_bind_addr(a: SocketAddress) -> SocketAddress {
    match a {
        SocketAddress::V4 { ip, .. } => SocketAddress::V4 { ip, port: 0 },
        SocketAddress::V6 { ip, flowinfo, scope_id, .. } => SocketAddress::V6 {
            ip,
            port: 0,
            flowinfo,
            scope_id,
        },
    }
}

/// The bind addresses of the sending sockets: one for each local address that
/// takes part in discovery and that `mode` admits, in order.
pub open spec fn spec_connector_addrs(found: Seq<SocketAddress>, mode: IpVersionMode) -> Seq<
    SocketAddress,
>
    decreases found.len(),
{
    if found.len() == 0 {
        Seq::empty()
    } else {
        let prev = spec_connector_addrs(found.drop_last(), mode);
        let a = found.last();
        if spec_filter_policy(a.spec_ip()) && spec_mode_admits(mode, a.spec_ip()) {
            prev.push(spec_bind_addr(a))
        } else {
            prev
        }
    }
}

/// Picks the bind addresses of the sending sockets, in order.
pub fn connector_addrs(found: &Vec<SocketAddress>, mode: IpVersionMode) -> (r: Vec<SocketAddress>)
    ensures
        r@ == spec_connector_addrs(found@, mode),
{
    let mut out: Vec<SocketAddress> = Vec::new();
    let mut i: usize = 0;
    while i < found.len()
        invariant
            i <= found@.len(),
            out@ == spec_connector_addrs(found@.subrange(0, i as int), mode),
        decreases found@.len() - i,
    {
        let a = found[i];
        proof {
            assert(found@.subrange(0, i + 1).drop_last() =~= found@.subrange(0, i as int));
            assert(found@.subrange(0, i + 1).last() == a);
        }
        let ip = a.ip();
        if filter_policy(&ip) && mode_admits(mode, &ip) {
            let b = match a {
                SocketAddress::V4 { ip, .. } => SocketAddress::V4 { ip, port: 0 },
                SocketAddress::V6 { ip, flowinfo, scope_id, .. } => SocketAddress::V6 {
                    ip,
                    port: 0,
                    flowinfo,
                    scope_id,
                },
            };
            out.push(b);
        }
        i = i + 1;
    }
    proof {
        assert(found@.subrange(0, found@.len() as int) =~= found@);
    }
    out
}

/// Where a sending socket bound to `local` sends: the IPv4 group, or the IPv6
/// group with the flow information and scope of the local address, so that
/// the datagram stays in the zone of its interface.
pub open spec fn spec_send_target(
    local: SocketAddress,
    group_v4: [u8; 4],
    group_v6: [u16; 8],
    port: u16,
) -> SocketAddress {
    match local {
        SocketAddress::V4 { .. } => SocketAddress::V4 { ip: group_v4, port },
        SocketAddress::V6 { flowinfo, scope_id, .. } => SocketAddress::V6 {
            ip: group_v6,
            port,
            flowinfo,
            scope_id,
        },
    }
}

pub fn send_target(local: &SocketAddress, group_v4: [u8; 4], group_v6: [u16; 8], port: u16) -> (r:
    SocketAddress)
    ensures
        r == spec_send_target(*local, group_v4, group_v6, port),
{
    match local {
        SocketAddress::V4 { .. } => SocketAddress::V4 { ip: group_v4, port },
        SocketAddress::V6 { flowinfo, scope_id, .. } => SocketAddress::V6 {
            ip: group_v6,
            port,
            flowinfo: *flowinfo,
            scope_id: *scope_id,
        },
    }
}

/// A multicast membership to join or leave.
#[derive(Copy, Clone, Debug, PartialEq, Eq)]
pub enum Membership {
    /// The IPv4 group, on the interface with this address.
    V4 { group: [u8; 4], iface: [u8; 4] },
    /// The IPv6 group, on the interface with this scope (index).
    V6 { group: [u16; 8], scope_id: u32 },
}

/// The membership of `group` on the interface of `iface`; the two must be of
/// the same family.
pub fn membership(iface: &SocketAddress, group: &IpAddress) -> (r: Result<Membership, SSDPError>)
    ensures
        match (*iface, *group) {
            (SocketAddress::V4 { ip, .. }, IpAddress::V4(g)) => r == Ok::<_, SSDPError>(
                Membership::V4 { group: g, iface: ip },
            ),
            (SocketAddress::V6 { scope_id, .. }, IpAddress::V6(g)) => r == Ok::<_, SSDPError>(
                Membership::V6 { group: g, scope_id },
            ),
            _ => r == Err::<Membership, _>(SSDPError::AddressFamilyMismatch),
        },
{
    match (iface, group) {
        (SocketAddress::V4 { ip, .. }, IpAddress::V4(g)) => Ok(Membership::V4 { group: *g, iface: *ip }),
        (SocketAddress::V6 { scope_id, .. }, IpAddress::V6(g)) => Ok(
            Membership::V6 { group: *g, scope_id: *scope_id },
        ),
        _ => Err(SSDPError::AddressFamilyMismatch),
    }
}

} // verus!
