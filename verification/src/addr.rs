//! Socket addresses and the fixed 20-byte discovery datagram.
//!
//! The receiver announces itself by broadcasting its listening address inside
//! a fixed-size UDP envelope: byte 0 carries the address family tag (4 or 6),
//! the next 4 or 16 bytes the raw address octets, the following 2 bytes the
//! port in big-endian order, and the rest is zero padding. This module holds
//! the library's own address representation, the datagram codec, and the
//! subnet broadcast-address computation.

use vstd::prelude::*;

use crate::TransferError;

verus! {

/// An IP address as raw octets: 4 for IPv4, 16 for IPv6.
#[derive(Debug)]
pub enum IpAddress {
    V4(Vec<u8>),
    V6(Vec<u8>),
}

/// An IP address together with a port.
#[derive(Debug)]
pub struct SocketAddress {
    pub ip: IpAddress,
    pub port: u16,
}

/// Mathematical model of an IP address.
pub ghost struct IpModel {
    pub is_v4: bool,
    pub octets: Seq<u8>,
}

/// Mathematical model of a socket address.
pub ghost struct AddrModel {
    pub ip: IpModel,
    pub port: u16,
}

impl View for IpAddress {
    type V = IpModel;

    open spec fn view(&self) -> IpModel {
        match self {
            IpAddress::V4(o) => IpModel { is_v4: true, octets: o@ },
            IpAddress::V6(o) => IpModel { is_v4: false, octets: o@ },
        }
    }
}

impl View for SocketAddress {
    type V = AddrModel;

    open spec fn view(&self) -> AddrModel {
        AddrModel { ip: self.ip@, port: self.port }
    }
}

/// An address is well formed when it has exactly as many octets as its
/// family prescribes.
pub open spec fn ip_wf(m: IpModel) -> bool {
    m.octets.len() == if m.is_v4 {
        4int
    } else {
        16int
    }
}

/// Well-formedness of a socket address.
pub open spec fn addr_wf(m: AddrModel) -> bool {
    ip_wf(m.ip)
}

/// The port in big-endian byte order.
pub open spec fn spec_port_be(p: u16) -> Seq<u8> {
    seq![(p / 256) as u8, (p % 256) as u8]
}

/// A run of `n` zero bytes.
pub open spec fn spec_zeros(n: int) -> Seq<u8> {
    Seq::new(n as nat, |i: int| 0u8)
}

/// The 20-byte discovery envelope for a well-formed address: family tag,
/// octets, big-endian port, zero padding.
pub open spec fn spec_serialize_socket_addr(m: AddrModel) -> Seq<u8> {
    let tag: u8 = if m.ip.is_v4 {
        4u8
    } else {
        6u8
    };
    seq![tag] + m.ip.octets + spec_port_be(m.port) + spec_zeros(17 - m.ip.octets.len())
}

/// Reading a 20-byte discovery envelope back: the family tag decides the
/// layout; any other tag is an error.
pub open spec fn spec_deserialize_socket_addr(b: Seq<u8>) -> Result<AddrModel, TransferError> {
    if b[0] == 4 {
        Ok(
            AddrModel {
                ip: IpModel { is_v4: true, octets: b.subrange(1, 5) },
                port: ((b[5] as u16) * 256 + (b[6] as u16)) as u16,
            },
        )
    } else if b[0] == 6 {
        Ok(
            AddrModel {
                ip: IpModel { is_v4: false, octets: b.subrange(1, 17) },
                port: ((b[17] as u16) * 256 + (b[18] as u16)) as u16,
            },
        )
    } else {
        Err(TransferError::InvalidDiscoveryDatagram)
    }
}

/// Builds the 20-byte discovery datagram for a socket address.
pub fn serialize_socket_addr(addr: &SocketAddress) -> (r: Vec<u8>)
    requires
        addr_wf(addr@),
    ensures
        r@.len() == 20,
        r@ == spec_serialize_socket_addr(addr@),
{
    let mut out: Vec<u8> = Vec::new();
    let octets: &Vec<u8> = match &addr.ip {
        IpAddress::V4(o) => {
            out.push(4u8);
            o
        },
        IpAddress::V6(o) => {
            out.push(6u8);
            o
        },
    };
    let mut k: usize = 0;
    while k < octets.len()
        invariant
            k <= octets@.len(),
            out@.len() == 1 + k,
            out@[0] == (if addr@.ip.is_v4 { 4u8 } else { 6u8 }),
            out@ == seq![out@[0]] + octets@.subrange(0, k as int),
        decreases octets@.len() - k,
    {
        out.push(octets[k]);
        assert(out@ =~= seq![out@[0]] + octets@.subrange(0, k + 1));
        k = k + 1;
    }
    out.push((addr.port / 256) as u8);
    out.push((addr.port % 256) as u8);
    while out.len() < 20
        invariant
            out@.len() >= 3 + addr@.ip.octets.len(),
            out@[0] == (if addr@.ip.is_v4 { 4u8 } else { 6u8 }),
            out@.len() <= 20,
            out@ == seq![out@[0]] + addr@.ip.octets + spec_port_be(addr.port) + spec_zeros(
                out@.len() - 3 - addr@.ip.octets.len(),
            ),
        decreases 20 - out@.len(),
    {
        out.push(0u8);
        assert(out@ =~= seq![out@[0]] + addr@.ip.octets + spec_port_be(addr.port) + spec_zeros(
            out@.len() - 3 - addr@.ip.octets.len(),
        ));
    }
    assert(out@ =~= spec_serialize_socket_addr(addr@));
    out
}

/// Reads a 20-byte discovery datagram back into an address; fails exactly
/// when the family tag is neither 4 nor 6.
pub fn deserialize_socket_addr(buffer: &[u8]) -> (r: Result<SocketAddress, TransferError>)
    requires
        buffer@.len() == 20,
    ensures
        match r {
            Ok(a) => spec_deserialize_socket_addr(buffer@) == Ok::<AddrModel, TransferError>(a@)
                && addr_wf(a@),
            Err(e) => spec_deserialize_socket_addr(buffer@) == Err::<AddrModel, TransferError>(e),
        },
{
    let tag = buffer[0];
    if tag == 4 {
        let mut octets: Vec<u8> = Vec::new();
        let mut k: usize = 1;
        while k < 5
            invariant
                1 <= k <= 5,
                buffer@.len() == 20,
                octets@ == buffer@.subrange(1, k as int),
            decreases 5 - k,
        {
            octets.push(buffer[k]);
            assert(octets@ =~= buffer@.subrange(1, k + 1));
            k = k + 1;
        }
        let port: u16 = (buffer[5] as u16) * 256 + (buffer[6] as u16);
        Ok(SocketAddress { ip: IpAddress::V4(octets), port })
    } else if tag == 6 {
        let mut octets: Vec<u8> = Vec::new();
        let mut k: usize = 1;
        while k < 17
            invariant
                1 <= k <= 17,
                buffer@.len() == 20,
                octets@ == buffer@.subrange(1, k as int),
            decreases 17 - k,
        {
            octets.push(buffer[k]);
            assert(octets@ =~= buffer@.subrange(1, k + 1));
            k = k + 1;
        }
        let port: u16 = (buffer[17] as u16) * 256 + (buffer[18] as u16);
        Ok(SocketAddress { ip: IpAddress::V6(octets), port })
    } else {
        Err(TransferError::InvalidDiscoveryDatagram)
    }
}

/// A serialized address deserializes back to itself.
///
/// Law: the discovery datagram codec round-trips on every well-formed
/// address, for both families.
pub proof fn lemma_socket_addr_round_trip(m: AddrModel)
    requires
        addr_wf(m),
    ensures
        spec_deserialize_socket_addr(spec_serialize_socket_addr(m)) == Ok::<
            AddrModel,
            TransferError,
        >(m),
{
    let b = spec_serialize_socket_addr(m);
    if m.ip.is_v4 {
        assert(b.subrange(1, 5) =~= m.ip.octets);
        assert(b[5] == (m.port / 256) as u8 && b[6] == (m.port % 256) as u8);
        assert((m.port / 256) as u16 * 256 + (m.port % 256) as u16 == m.port);
        let d = spec_deserialize_socket_addr(b);
        assert(d == Ok::<AddrModel, TransferError>(m));
    } else {
        assert(b.subrange(1, 17) =~= m.ip.octets);
        assert(b[17] == (m.port / 256) as u8 && b[18] == (m.port % 256) as u8);
        assert((m.port / 256) as u16 * 256 + (m.port % 256) as u16 == m.port);
        let d = spec_deserialize_socket_addr(b);
        assert(d == Ok::<AddrModel, TransferError>(m));
    }
}

/// Subnet broadcast address: each octet of the address ORed with the
/// complement of the matching subnet-mask octet; the port is kept. The
/// address and the mask must belong to the same family.
pub fn make_broadcast_addr(addr: &SocketAddress, subnet_mask: &IpAddress) -> (r: SocketAddress)
    requires
        addr_wf(addr@),
        ip_wf(subnet_mask@),
        addr@.ip.is_v4 == subnet_mask@.is_v4,
    ensures
        addr_wf(r@),
        r@.port == addr@.port,
        r@.ip.is_v4 == addr@.ip.is_v4,
        r@.ip.octets.len() == addr@.ip.octets.len(),
        forall|k: int|
            0 <= k < r@.ip.octets.len() ==> r@.ip.octets[k] == (addr@.ip.octets[k] | !subnet_mask@.octets[k]),
{
    let (a, msk): (&Vec<u8>, &Vec<u8>) = match (&addr.ip, subnet_mask) {
        (IpAddress::V4(a), IpAddress::V4(m)) => (a, m),
        (IpAddress::V6(a), IpAddress::V6(m)) => (a, m),
        _ => vstd::pervasive::unreached(),
    };
    let mut out: Vec<u8> = Vec::new();
    let mut k: usize = 0;
    while k < a.len()
        invariant
            k <= a@.len(),
            a@.len() == msk@.len(),
            out@.len() == k,
            forall|j: int| 0 <= j < k ==> out@[j] == (a@[j] | !msk@[j]),
        decreases a@.len() - k,
    {
        out.push(a[k] | !msk[k]);
        k = k + 1;
    }
    let ip = match &addr.ip {
        IpAddress::V4(_) => IpAddress::V4(out),
        IpAddress::V6(_) => IpAddress::V6(out),
    };
    SocketAddress { ip, port: addr.port }
}

} // verus!
