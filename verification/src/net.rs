//! Addresses and networks as plain values; the `ipnet` crate reads, truncates,
//! compares and prints networks.

use vstd::arithmetic::power2::pow2;
use vstd::prelude::*;

use crate::capsule::be_value;
use crate::text::{decimal, push_decimal};

verus! {

/// An IP address as a number.
#[derive(Clone, Copy, Debug, PartialEq, Eq, Hash, Structural)]
pub enum IpAddr {
    V4(u32),
    V6(u128),
}

/// An address and a port.
#[allow(inconsistent_fields)]
#[derive(Clone, Copy, Debug, PartialEq, Eq, Hash, Structural)]
pub enum SocketAddr {
    V4 { ip: u32, port: u16 },
    V6 { ip: u128, port: u16, flowinfo: u32, scope_id: u32 },
}

/// A network: an address, not necessarily its first one, and how many of its
/// leading bits are fixed.
#[derive(Clone, Copy, Debug, PartialEq, Eq, Hash, Structural)]
pub struct IpNet {
    addr: IpAddr,
    prefix_len: u8,
}

/// An IPv4 address: its four bytes in decimal.
pub open spec fn ipv4_text(ip: u32) -> Seq<char> {
    decimal((ip / 0x100_0000) as nat) + "."@ + decimal((ip / 0x1_0000 % 256) as nat) + "."@
        + decimal((ip / 0x100 % 256) as nat) + "."@ + decimal((ip % 256) as nat)
}

/// The canonical text of an IPv6 address.
pub uninterp spec fn ipv6_text(ip: u128) -> Seq<char>;

/// The network that a text in the `address/length` form writes: whether it is an
/// IPv6 one, its address and its length.
pub uninterp spec fn parsed_net(text: Seq<char>) -> Option<(bool, u128, u8)>;

/// How many low bits of an address the network leaves open.
pub open spec fn host_bits(width: nat, prefix_len: u8) -> nat {
    (width - prefix_len) as nat
}

/// Both addresses agree but for their low bits.
pub open spec fn same_prefix(a: nat, b: nat, low_bits: nat) -> bool {
    a / pow2(low_bits) == b / pow2(low_bits)
}

/// The first address of a network.
pub open spec fn first_address(a: nat, low_bits: nat) -> nat {
    (a / pow2(low_bits)) * pow2(low_bits)
}

/// `Ipv4Net::new` and `Contains<&Ipv4Addr>`: whether the address has the
/// network's leading bits. The length is at most 32, so that the network exists.
#[verifier::external_body]
fn v4_contains(net: u32, prefix_len: u8, ip: u32) -> (r: bool)
    requires
        prefix_len <= 32,
    ensures
        r == same_prefix(net as nat, ip as nat, host_bits(32, prefix_len)),
{
    let single = ipnet::Ipv4Net::new(ip.into(), 32).unwrap();
    ipnet::Ipv4Net::new(net.into(), prefix_len).unwrap().contains(&single.addr())
}

/// `Ipv6Net::new` and `Contains<&Ipv6Addr>`: whether the address has the
/// network's leading bits. The length is at most 128, so that the network exists.
#[verifier::external_body]
fn v6_contains(net: u128, prefix_len: u8, ip: u128) -> (r: bool)
    requires
        prefix_len <= 128,
    ensures
        r == same_prefix(net as nat, ip as nat, host_bits(128, prefix_len)),
{
    let single = ipnet::Ipv6Net::new(ip.into(), 128).unwrap();
    ipnet::Ipv6Net::new(net.into(), prefix_len).unwrap().contains(&single.addr())
}

/// `Ipv4Net::network`: the network's first address. The length is at most 32, so
/// that the network exists.
#[verifier::external_body]
fn v4_network(net: u32, prefix_len: u8) -> (r: u32)
    requires
        prefix_len <= 32,
    ensures
        r == first_address(net as nat, host_bits(32, prefix_len)),
{
    ipnet::Ipv4Net::new(net.into(), prefix_len).unwrap().network().into()
}

/// `Ipv6Net::network`: the network's first address. The length is at most 128, so
/// that the network exists.
#[verifier::external_body]
fn v6_network(net: u128, prefix_len: u8) -> (r: u128)
    requires
        prefix_len <= 128,
    ensures
        r == first_address(net as nat, host_bits(128, prefix_len)),
{
    ipnet::Ipv6Net::new(net.into(), prefix_len).unwrap().network().into()
}

/// `<Ipv4Net as Display>`: the address byte by byte, then the length. The length
/// is at most 32, so that the network exists.
#[verifier::external_body]
fn v4_net_text(net: u32, prefix_len: u8) -> (r: String)
    requires
        prefix_len <= 32,
    ensures
        r@ == ipv4_text(net) + "/"@ + decimal(prefix_len as nat),
{
    ipnet::Ipv4Net::new(net.into(), prefix_len).unwrap().to_string()
}

/// `<Ipv6Net as Display>`: the address in its canonical text, then the length.
/// The length is at most 128, so that the network exists.
#[verifier::external_body]
fn v6_net_text(net: u128, prefix_len: u8) -> (r: String)
    requires
        prefix_len <= 128,
    ensures
        r@ == ipv6_text(net) + "/"@ + decimal(prefix_len as nat),
{
    ipnet::Ipv6Net::new(net.into(), prefix_len).unwrap().to_string()
}

/// `Ipv6Net::addr` of a single address, printed: the address in its canonical
/// text.
#[verifier::external_body]
fn v6_text(ip: u128) -> (r: String)
    ensures
        r@ == ipv6_text(ip),
{
    ipnet::Ipv6Net::new(ip.into(), 128).unwrap().addr().to_string()
}

/// `<IpNet as FromStr>::from_str`: the network that the text writes, in parts.
/// An IPv4 network has an address of 32 bits and at most 32 fixed bits, an IPv6
/// network at most 128.
#[verifier::external_body]
fn net_from_text(text: &str) -> (r: Option<(bool, u128, u8)>)
    ensures
        r == parsed_net(text@),
        r matches Some((v6, addr, prefix_len)) ==> (if v6 {
            prefix_len <= 128
        } else {
            addr < 0x1_0000_0000 && prefix_len <= 32
        }),
{
    match text.parse::<ipnet::IpNet>() {
        Ok(ipnet::IpNet::V4(n)) => Some((false, u32::from(n.addr()).into(), n.prefix_len())),
        Ok(ipnet::IpNet::V6(n)) => Some((true, n.addr().into(), n.prefix_len())),
        Err(_) => None,
    }
}

impl IpAddr {
    /// How many bits an address of this family has.
    pub open spec fn width(self) -> nat {
        match self {
            IpAddr::V4(_) => 32,
            IpAddr::V6(_) => 128,
        }
    }

    /// The address as a number.
    pub open spec fn number(self) -> nat {
        match self {
            IpAddr::V4(ip) => ip as nat,
            IpAddr::V6(ip) => ip as nat,
        }
    }

    /// Whether the address reaches this host itself: `127.0.0.0/8` or `::1`.
    pub open spec fn loopback(self) -> bool {
        match self {
            IpAddr::V4(ip) => ip / 0x100_0000 == 127,
            IpAddr::V6(ip) => ip == 1,
        }
    }

    /// Whether the address reaches this host itself.
    pub fn is_loopback(&self) -> (r: bool)
        ensures
            r == self.loopback(),
    {
        match self {
            IpAddr::V4(ip) => *ip / 0x100_0000 == 127,
            IpAddr::V6(ip) => *ip == 1,
        }
    }

    /// Whether the address is an IPv6 one.
    pub fn is_ipv6(&self) -> (r: bool)
        ensures
            r == (self is V6),
    {
        match self {
            IpAddr::V4(_) => false,
            IpAddr::V6(_) => true,
        }
    }

    /// The address in text.
    pub open spec fn shown(self) -> Seq<char> {
        match self {
            IpAddr::V4(ip) => ipv4_text(ip),
            IpAddr::V6(ip) => ipv6_text(ip),
        }
    }

    /// The address in text.
    pub fn text(&self) -> (r: String)
        ensures
            r@ == self.shown(),
    {
        match self {
            IpAddr::V4(ip) => {
                let mut out: String = String::new();
                push_decimal(&mut out, (*ip / 0x100_0000) as u64);
                out.append(".");
                push_decimal(&mut out, (*ip / 0x1_0000 % 256) as u64);
                out.append(".");
                push_decimal(&mut out, (*ip / 0x100 % 256) as u64);
                out.append(".");
                push_decimal(&mut out, (*ip % 256) as u64);
                assert(out@ =~= ipv4_text(*ip));
                out
            },
            IpAddr::V6(ip) => v6_text(*ip),
        }
    }
}

impl SocketAddr {
    /// The address without the port.
    pub open spec fn spec_ip(self) -> IpAddr {
        match self {
            SocketAddr::V4 { ip, .. } => IpAddr::V4(ip),
            SocketAddr::V6 { ip, .. } => IpAddr::V6(ip),
        }
    }

    /// The port.
    pub open spec fn spec_port(self) -> u16 {
        match self {
            SocketAddr::V4 { port, .. } => port,
            SocketAddr::V6 { port, .. } => port,
        }
    }

    /// An address and a port, with neither flow nor scope.
    pub fn new(ip: IpAddr, port: u16) -> (r: SocketAddr)
        ensures
            r.spec_ip() == ip,
            r.spec_port() == port,
            r matches SocketAddr::V6 { flowinfo, scope_id, .. } ==> flowinfo == 0 && scope_id == 0,
    {
        match ip {
            IpAddr::V4(ip) => SocketAddr::V4 { ip, port },
            IpAddr::V6(ip) => SocketAddr::V6 { ip, port, flowinfo: 0, scope_id: 0 },
        }
    }

    /// The address without the port.
    pub fn ip(&self) -> (r: IpAddr)
        ensures
            r == self.spec_ip(),
    {
        match self {
            SocketAddr::V4 { ip, .. } => IpAddr::V4(*ip),
            SocketAddr::V6 { ip, .. } => IpAddr::V6(*ip),
        }
    }

    /// The port.
    pub fn port(&self) -> (r: u16)
        ensures
            r == self.spec_port(),
    {
        match self {
            SocketAddr::V4 { port, .. } => *port,
            SocketAddr::V6 { port, .. } => *port,
        }
    }

    /// Whether the address is an IPv4 one.
    pub fn is_ipv4(&self) -> (r: bool)
        ensures
            r == (self is V4),
    {
        match self {
            SocketAddr::V4 { .. } => true,
            SocketAddr::V6 { .. } => false,
        }
    }

    /// The address with an IPv4 address in IPv6 clothing (`::ffff:a.b.c.d`) as
    /// the IPv4 address that it is.
    pub open spec fn canonical(self) -> SocketAddr {
        match self {
            SocketAddr::V6 { ip, port, .. } if ip / 0x1_0000_0000 == 0xffff => SocketAddr::V4 {
                ip: (ip % 0x1_0000_0000) as u32,
                port,
            },
            _ => self,
        }
    }

    /// The address with an IPv4 address in IPv6 clothing as the IPv4 address that
    /// it is.
    pub fn to_canonical(self) -> (r: SocketAddr)
        ensures
            r == self.canonical(),
    {
        match self {
            SocketAddr::V6 { ip, port, flowinfo, scope_id } => {
                if ip / 0x1_0000_0000 == 0xffff {
                    SocketAddr::V4 { ip: (ip % 0x1_0000_0000) as u32, port }
                } else {
                    SocketAddr::V6 { ip, port, flowinfo, scope_id }
                }
            },
            SocketAddr::V4 { ip, port } => SocketAddr::V4 { ip, port },
        }
    }

    /// The address and the port in text; an IPv6 address stands in brackets, with
    /// its scope where it has one.
    pub open spec fn shown(self) -> Seq<char> {
        match self {
            SocketAddr::V4 { ip, port } => ipv4_text(ip) + ":"@ + decimal(port as nat),
            SocketAddr::V6 { ip, port, scope_id, .. } => "["@ + ipv6_text(ip) + (if scope_id == 0 {
                Seq::empty()
            } else {
                "%"@ + decimal(scope_id as nat)
            }) + "]:"@ + decimal(port as nat),
        }
    }

    /// The address and the port in text.
    pub fn text(&self) -> (r: String)
        ensures
            r@ == self.shown(),
    {
        match self {
            SocketAddr::V4 { ip, port } => {
                let mut out: String = IpAddr::V4(*ip).text();
                out.append(":");
                push_decimal(&mut out, *port as u64);
                out
            },
            SocketAddr::V6 { ip, port, scope_id, .. } => {
                let mut out: String = "[".to_owned();
                out.append(v6_text(*ip).as_str());
                if *scope_id != 0 {
                    out.append("%");
                    push_decimal(&mut out, *scope_id as u64);
                }
                out.append("]:");
                push_decimal(&mut out, *port as u64);
                assert(out@ =~= self.shown());
                out
            },
        }
    }
}

impl IpNet {
    /// The network fixes no more bits than its address has.
    #[verifier::type_invariant]
    pub closed spec fn well_formed(self) -> bool {
        self.prefix_len <= self.addr.width()
    }

    /// The address that the network was given as.
    pub closed spec fn spec_addr(self) -> IpAddr {
        self.addr
    }

    /// How many leading bits are fixed.
    pub closed spec fn spec_prefix_len(self) -> u8 {
        self.prefix_len
    }

    /// How many low bits are open.
    pub open spec fn open_bits(self) -> nat {
        host_bits(self.spec_addr().width(), self.spec_prefix_len())
    }

    /// Whether the address belongs to the network: it is of the same family and
    /// has the fixed bits.
    pub open spec fn has(self, ip: IpAddr) -> bool {
        &&& self.spec_addr().width() == ip.width()
        &&& same_prefix(self.spec_addr().number(), ip.number(), self.open_bits())
    }

    /// The network in text.
    pub open spec fn shown(self) -> Seq<char> {
        self.spec_addr().shown() + "/"@ + decimal(self.spec_prefix_len() as nat)
    }

    /// The network of an address and a number of fixed bits, unless the address
    /// has fewer.
    pub fn new(addr: IpAddr, prefix_len: u8) -> (r: Option<IpNet>)
        ensures
            r.is_some() == (prefix_len <= addr.width()),
            r matches Some(net) ==> net.spec_addr() == addr && net.spec_prefix_len() == prefix_len,
    {
        let most: u8 = match addr {
            IpAddr::V4(_) => 32,
            IpAddr::V6(_) => 128,
        };
        if prefix_len <= most {
            Some(IpNet { addr, prefix_len })
        } else {
            None
        }
    }

    /// The network that a text such as `10.0.0.0/8` writes.
    pub fn parse(text: &str) -> (r: Option<IpNet>)
        ensures
            r.is_some() == parsed_net(text@).is_some(),
            r matches Some(net) ==> parsed_net(text@) == Some(
                (
                    net.spec_addr() is V6,
                    net.spec_addr().number() as u128,
                    net.spec_prefix_len(),
                ),
            ),
    {
        match net_from_text(text) {
            None => None,
            Some((v6, addr, prefix_len)) => {
                if v6 {
                    Some(IpNet { addr: IpAddr::V6(addr), prefix_len })
                } else {
                    Some(IpNet { addr: IpAddr::V4(addr as u32), prefix_len })
                }
            },
        }
    }

    /// The address that the network was given as.
    pub fn addr(&self) -> (r: IpAddr)
        ensures
            r == self.spec_addr(),
    {
        self.addr
    }

    /// How many leading bits are fixed.
    pub fn prefix_len(&self) -> (r: u8)
        ensures
            r == self.spec_prefix_len(),
            r <= self.spec_addr().width(),
    {
        proof {
            use_type_invariant(self);
        }
        self.prefix_len
    }

    /// Whether the network is an IPv6 one.
    pub fn is_ipv6(&self) -> (r: bool)
        ensures
            r == (self.spec_addr() is V6),
    {
        self.addr.is_ipv6()
    }

    /// Whether the address belongs to the network.
    pub fn contains(&self, ip: &IpAddr) -> (r: bool)
        ensures
            r == self.has(*ip),
    {
        proof {
            use_type_invariant(self);
        }
        match (self.addr, *ip) {
            (IpAddr::V4(net), IpAddr::V4(ip)) => v4_contains(net, self.prefix_len, ip),
            (IpAddr::V6(net), IpAddr::V6(ip)) => v6_contains(net, self.prefix_len, ip),
            _ => false,
        }
    }

    /// The network given as its first address.
    pub fn trunc(&self) -> (r: IpNet)
        ensures
            r.spec_addr().width() == self.spec_addr().width(),
            r.spec_prefix_len() == self.spec_prefix_len(),
            r.spec_addr().number() == first_address(self.spec_addr().number(), self.open_bits()),
    {
        proof {
            use_type_invariant(self);
        }
        let addr: IpAddr = match self.addr {
            IpAddr::V4(net) => IpAddr::V4(v4_network(net, self.prefix_len)),
            IpAddr::V6(net) => IpAddr::V6(v6_network(net, self.prefix_len)),
        };
        IpNet { addr, prefix_len: self.prefix_len }
    }

    /// The network in text.
    pub fn text(&self) -> (r: String)
        ensures
            r@ == self.shown(),
    {
        proof {
            use_type_invariant(self);
        }
        match self.addr {
            IpAddr::V4(net) => v4_net_text(net, self.prefix_len),
            IpAddr::V6(net) => v6_net_text(net, self.prefix_len),
        }
    }
}

/// Giving a network as its first address does not change which addresses belong
/// to it, and giving it so again changes nothing.
pub proof fn law_first_address_keeps_the_network(net: nat, ip: nat, low_bits: nat)
    ensures
        same_prefix(first_address(net, low_bits), ip, low_bits) == same_prefix(net, ip, low_bits),
        first_address(first_address(net, low_bits), low_bits) == first_address(net, low_bits),
{
    vstd::arithmetic::power2::lemma_pow2_pos(low_bits);
    let unit = pow2(low_bits) as int;
    let prefix = net as int / unit;
    vstd::arithmetic::div_mod::lemma_div_multiples_vanish(prefix, unit);
    assert(prefix * unit == unit * prefix) by (nonlinear_arith);
}

/// How large the number is that so many bytes write.
pub proof fn lemma_be_value_bound(bytes: Seq<u8>)
    ensures
        bytes.len() == 2 ==> be_value(bytes) < 0x1_0000,
        bytes.len() == 4 ==> be_value(bytes) < 0x1_0000_0000,
        bytes.len() <= 16 ==> be_value(bytes) <= u128::MAX,
{
    lemma_be_value_pow(bytes);
    reveal_with_fuel(vstd::arithmetic::power::pow, 17);
    assert(vstd::arithmetic::power::pow(256, 2) == 0x1_0000) by {
        reveal_with_fuel(vstd::arithmetic::power::pow, 3);
    }
    assert(vstd::arithmetic::power::pow(256, 4) == 0x1_0000_0000) by {
        reveal_with_fuel(vstd::arithmetic::power::pow, 5);
    }
    if bytes.len() <= 16 {
        vstd::arithmetic::power::lemma_pow_increases(256, bytes.len(), 16);
        assert(vstd::arithmetic::power::pow(256, 16) == 0x1_0000_0000_0000_0000_0000_0000_0000_0000);
    }
}

proof fn lemma_be_value_pow(bytes: Seq<u8>)
    ensures
        be_value(bytes) < vstd::arithmetic::power::pow(256, bytes.len()),
    decreases bytes.len(),
{
    reveal(vstd::arithmetic::power::pow);
    if bytes.len() > 0 {
        lemma_be_value_pow(bytes.drop_last());
        let p = vstd::arithmetic::power::pow(256, (bytes.len() - 1) as nat);
        assert(256 * p == p * 256) by (nonlinear_arith);
    }
}

/// The number that bytes in network order write.
pub fn read_network_order(bytes: &[u8]) -> (r: u128)
    requires
        bytes@.len() <= 16,
    ensures
        r == be_value(bytes@),
{
    let mut value: u128 = 0;
    let mut i: usize = 0;
    while i < bytes.len()
        invariant
            i <= bytes@.len() <= 16,
            value == be_value(bytes@.take(i as int)),
        decreases bytes@.len() - i,
    {
        proof {
            assert(bytes@.take(i + 1).drop_last() =~= bytes@.take(i as int));
            lemma_be_value_bound(bytes@.take(i + 1));
        }
        value = value * 256 + bytes[i] as u128;
        i = i + 1;
    }
    assert(bytes@.take(i as int) =~= bytes@);
    value
}

/// A network is told by its address and its length.
pub proof fn lemma_same_net(a: IpNet, b: IpNet)
    requires
        a.spec_addr() == b.spec_addr(),
        a.spec_prefix_len() == b.spec_prefix_len(),
    ensures
        a == b,
{
}

/// The address that bytes in network order write: four for IPv4, sixteen for IPv6.
pub open spec fn address_of(bytes: Seq<u8>) -> Option<IpAddr> {
    if bytes.len() == 4 {
        Some(IpAddr::V4(be_value(bytes) as u32))
    } else if bytes.len() == 16 {
        Some(IpAddr::V6(be_value(bytes) as u128))
    } else {
        None
    }
}

/// The address that bytes in network order write.
pub fn byte_to_ip(bytes: &[u8]) -> (r: Option<IpAddr>)
    ensures
        r == address_of(bytes@),
{
    if bytes.len() == 4 {
        proof {
            lemma_be_value_bound(bytes@);
        }
        Some(IpAddr::V4(read_network_order(bytes) as u32))
    } else if bytes.len() == 16 {
        Some(IpAddr::V6(read_network_order(bytes)))
    } else {
        None
    }
}

/// Whether the number lies in the block of addresses that leaves so many low bits of
/// this one open.
pub open spec fn in_block(number: nat, of: nat, low_bits: nat) -> bool {
    let size = pow2(low_bits);
    of - of % size <= number < of - of % size + size
}

/// Whether the address is of the network's family and lies in its block of addresses.
pub open spec fn lies_in(ip: IpAddr, net: IpNet) -> bool {
    match (net.spec_addr(), ip) {
        (IpAddr::V4(base), IpAddr::V4(ip)) => in_block(
            ip as nat,
            base as nat,
            (32 - net.spec_prefix_len()) as nat,
        ),
        (IpAddr::V6(base), IpAddr::V6(ip)) => in_block(
            ip as nat,
            base as nat,
            (128 - net.spec_prefix_len()) as nat,
        ),
        _ => false,
    }
}

pub proof fn lemma_prefix_is_block(a: nat, b: nat, low_bits: nat)
    ensures
        a / pow2(low_bits) == b / pow2(low_bits) <==> in_block(b, a, low_bits),
{
    vstd::arithmetic::power2::lemma_pow2_pos(low_bits);
    let d = pow2(low_bits) as int;
    let x = a as int;
    let y = b as int;
    vstd::arithmetic::div_mod::lemma_fundamental_div_mod(x, d);
    vstd::arithmetic::div_mod::lemma_fundamental_div_mod(y, d);
    let qx = x / d;
    let qy = y / d;
    assert(x - x % d == d * qx);
    if qx == qy {
    } else if qx < qy {
        assert(d * qy >= d * qx + d) by (nonlinear_arith)
            requires
                qx + 1 <= qy,
                d > 0,
        ;
    } else {
        assert(d * qx >= d * qy + d) by (nonlinear_arith)
            requires
                qy + 1 <= qx,
                d > 0,
        ;
    }
}

/// A network holds the addresses of its own family from its first one to its last one,
/// and no others: as many as its open bits can write.
pub proof fn law_network_is_a_block_of_addresses(net: IpNet, ip: IpAddr)
    ensures
        net.has(ip) <==> lies_in(ip, net),
{
    match (net.spec_addr(), ip) {
        (IpAddr::V4(base), IpAddr::V4(ip)) => {
            lemma_prefix_is_block(base as nat, ip as nat, (32 - net.spec_prefix_len()) as nat);
        },
        (IpAddr::V6(base), IpAddr::V6(ip)) => {
            lemma_prefix_is_block(base as nat, ip as nat, (128 - net.spec_prefix_len()) as nat);
        },
        _ => {},
    }
}

/// A network that fixes no bit holds every address of its family, one that fixes all
/// bits its own address alone, and every network its own address.
pub proof fn law_shortest_and_longest_networks(net: IpNet, ip: IpAddr)
    requires
        net.spec_prefix_len() <= net.spec_addr().width(),
    ensures
        net.has(net.spec_addr()),
        net.spec_prefix_len() == 0 && net.spec_addr() is V4 && ip is V4 ==> net.has(ip),
        net.spec_prefix_len() == 32 && net.spec_addr() is V4 ==> (net.has(ip) <==> ip
            == net.spec_addr()),
        net.spec_prefix_len() == 128 ==> (net.has(ip) <==> ip == net.spec_addr()),
        net.has(ip) ==> (net.spec_addr() is V4 <==> ip is V4),
{
    law_network_is_a_block_of_addresses(net, ip);
    law_network_is_a_block_of_addresses(net, net.spec_addr());
    vstd::arithmetic::power2::lemma2_to64();
    let bits = (net.spec_addr().width() - net.spec_prefix_len()) as nat;
    vstd::arithmetic::power2::lemma_pow2_pos(bits);
    vstd::arithmetic::div_mod::lemma_mod_bound(
        net.spec_addr().number() as int,
        pow2(bits) as int,
    );
    if net.spec_prefix_len() == 0 && net.spec_addr() is V4 && ip is V4 {
        vstd::arithmetic::div_mod::lemma_small_mod(net.spec_addr().number(), pow2(32));
    }
}

/// The addresses that reach this host itself are those from 127.0.0.0 to
/// 127.255.255.255, and of IPv6 the address one alone.
pub proof fn law_loopback_addresses(ip: IpAddr)
    ensures
        ip.loopback() <==> match ip {
            IpAddr::V4(n) => 0x7f00_0000 <= n <= 0x7fff_ffff,
            IpAddr::V6(n) => n == 1,
        },
{
}

/// An IPv4 address in IPv6 clothing is the same address with the same port; any other
/// address is left as it is, and what is canonical stays so.
pub proof fn law_canonical_address(address: SocketAddr, v4: u32)
    ensures
        address.canonical().spec_port() == address.spec_port(),
        address.spec_ip() == IpAddr::V6((0xffff_0000_0000 + v4) as u128)
            ==> address.canonical().spec_ip() == IpAddr::V4(v4),
        address is V4 ==> address.canonical() == address,
        address matches SocketAddr::V6 { ip, .. } && !(0xffff_0000_0000 <= ip
            <= 0xffff_ffff_ffff) ==> address.canonical() == address,
        address.canonical().canonical() == address.canonical(),
{
}

/// Four bytes write an IPv4 address, the first of them its highest byte; sixteen write
/// an IPv6 address; any other number of bytes writes none.
pub proof fn law_bytes_write_an_address(bytes: Seq<u8>)
    ensures
        bytes.len() == 4 ==> address_of(bytes) == Some(
            IpAddr::V4(
                (bytes[0] as int * 0x100_0000 + bytes[1] as int * 0x1_0000 + bytes[2] as int
                    * 0x100 + bytes[3] as int) as u32,
            ),
        ),
        bytes.len() != 4 && bytes.len() != 16 ==> address_of(bytes) is None,
        bytes.len() == 16 ==> address_of(bytes) is Some && address_of(bytes)->0 is V6,
{
    if bytes.len() == 4 {
        reveal_with_fuel(be_value, 5);
        let three = bytes.drop_last();
        let two = three.drop_last();
        let one = two.drop_last();
        assert(one.drop_last().len() == 0);
        assert(one.last() == bytes[0] && two.last() == bytes[1] && three.last() == bytes[2]);
    }
}

/// An IPv4 address is written as its four bytes, the highest first, each in decimal, with
/// dots between them; with its port, a colon stands between the two.
pub proof fn law_addresses_are_written(a: u8, b: u8, c: u8, d: u8, port: u16)
    ensures
        ({
            let ip = (a * 0x100_0000 + b * 0x1_0000 + c * 0x100 + d) as u32;
            let text = decimal(a as nat) + seq!['.'] + decimal(b as nat) + seq!['.'] + decimal(
                c as nat,
            ) + seq!['.'] + decimal(d as nat);
            &&& IpAddr::V4(ip).shown() == text
            &&& (SocketAddr::V4 { ip, port }).shown() == text + seq![':'] + decimal(port as nat)
        }),
{
    reveal_strlit(".");
    reveal_strlit(":");
    assert("."@ =~= seq!['.']);
    assert(":"@ =~= seq![':']);
    lemma_four_bytes(a as int, b as int, c as int, d as int);
}

/// Four bytes are found again in the number that they make up.
proof fn lemma_four_bytes(a: int, b: int, c: int, d: int)
    requires
        0 <= a < 256,
        0 <= b < 256,
        0 <= c < 256,
        0 <= d < 256,
    ensures
        ({
            let n = a * 0x100_0000 + b * 0x1_0000 + c * 0x100 + d;
            &&& n / 0x100_0000 == a
            &&& n / 0x1_0000 % 256 == b
            &&& n / 0x100 % 256 == c
            &&& n % 256 == d
        }),
{
    let n = a * 0x100_0000 + b * 0x1_0000 + c * 0x100 + d;
    let two = a * 0x100 + b;
    let three = two * 0x100 + c;
    assert(n == three * 0x100 + d);
    assert(n / 0x100 == three && n % 256 == d);
    assert(three / 0x100 == two && three % 256 == c);
    assert(n / 0x1_0000 == two) by {
        assert(n == two * 0x1_0000 + (c * 0x100 + d));
    }
    assert(two % 256 == b);
    assert(n / 0x100_0000 == a) by {
        assert(n == a * 0x100_0000 + (b * 0x1_0000 + c * 0x100 + d));
    }
}

/// An IPv6 address with its port stands in brackets, a colon behind it, with its scope
/// behind a percent sign where it has one. A network is written as its address, a slash
/// and its length.
pub proof fn law_wider_addresses_are_written(
    ip: u128,
    port: u16,
    flowinfo: u32,
    scope_id: u32,
    net: IpNet,
)
    ensures
        scope_id == 0 ==> (SocketAddr::V6 { ip, port, flowinfo, scope_id }).shown() == seq!['[']
            + ipv6_text(ip) + seq![']', ':'] + decimal(port as nat),
        scope_id > 0 ==> (SocketAddr::V6 { ip, port, flowinfo, scope_id }).shown() == seq!['[']
            + ipv6_text(ip) + seq!['%'] + decimal(scope_id as nat) + seq![']', ':'] + decimal(
            port as nat,
        ),
        net.shown() == net.spec_addr().shown() + seq!['/'] + decimal(net.spec_prefix_len() as nat),
{
    reveal_strlit("[");
    reveal_strlit("]:");
    reveal_strlit("%");
    reveal_strlit("/");
    assert("["@ =~= seq!['[']);
    assert("]:"@ =~= seq![']', ':']);
    assert("%"@ =~= seq!['%']);
    assert("/"@ =~= seq!['/']);
    let shown = (SocketAddr::V6 { ip, port, flowinfo, scope_id }).shown();
    if scope_id == 0 {
        assert(shown =~= seq!['['] + ipv6_text(ip) + seq![']', ':'] + decimal(port as nat));
    } else {
        assert(shown =~= seq!['['] + ipv6_text(ip) + seq!['%'] + decimal(scope_id as nat)
            + seq![']', ':'] + decimal(port as nat));
    }
}

} // verus!
