//! Ancillary data that comes with a datagram.

use vstd::prelude::*;
use vstd::string::StringExecFns;

use crate::text::append_i32;
use crate::text::decimal;

verus! {

/// Values of the ECN field.
#[derive(Clone, Copy, Debug, PartialEq, Eq, Structural)]
pub enum ECNValue {
    /// Not ECN-capable transport.
    NotEct,
    /// ECN-capable transport, ECT(0).
    ECT0,
    /// ECN-capable transport, ECT(1).
    ECT1,
    /// Congestion experienced.
    CE,
}

/// The value that the two low bits of the traffic class stand for.
pub open spec fn ecn_of(value: u8) -> ECNValue {
    if value % 4 == 0 {
        ECNValue::NotEct
    } else if value % 4 == 1 {
        ECNValue::ECT1
    } else if value % 4 == 2 {
        ECNValue::ECT0
    } else {
        ECNValue::CE
    }
}

/// The two low bits of the traffic class.
pub open spec fn ecn_bits(value: ECNValue) -> u32 {
    match value {
        ECNValue::NotEct => 0,
        ECNValue::ECT0 => 2,
        ECNValue::ECT1 => 1,
        ECNValue::CE => 3,
    }
}

impl From<u8> for ECNValue {
    fn from(value: u8) -> (r: ECNValue) {
        let low: u8 = value % 4;
        if low == 0 {
            ECNValue::NotEct
        } else if low == 1 {
            ECNValue::ECT1
        } else if low == 2 {
            ECNValue::ECT0
        } else {
            ECNValue::CE
        }
    }
}

impl vstd::std_specs::convert::FromSpecImpl<u8> for ECNValue {
    open spec fn obeys_from_spec() -> bool {
        true
    }

    open spec fn from_spec(value: u8) -> ECNValue {
        ecn_of(value)
    }
}

impl From<ECNValue> for u32 {
    fn from(val: ECNValue) -> (r: u32) {
        match val {
            ECNValue::NotEct => 0,
            ECNValue::ECT0 => 2,
            ECNValue::ECT1 => 1,
            ECNValue::CE => 3,
        }
    }
}

impl vstd::std_specs::convert::FromSpecImpl<ECNValue> for u32 {
    open spec fn obeys_from_spec() -> bool {
        true
    }

    open spec fn from_spec(val: ECNValue) -> u32 {
        ecn_bits(val)
    }
}

/// What is written in the traffic class is read back, whatever the other bits.
pub proof fn ecn_is_read_back(value: ECNValue, high: u8)
    requires
        high % 4 == 0,
    ensures
        ecn_of((high + ecn_bits(value)) as u8) == value,
{
}

/// Ancillary data of an unknown kind: its level and its type.
#[derive(Clone, Copy, Debug, PartialEq, Eq, Structural)]
pub struct AncillaryError(pub i32, pub i32);

impl AncillaryError {
    /// The message that tells the level and the type.
    pub fn message(&self) -> (r: String)
        ensures
            r@ == "Invalid ancillary received: level = "@ + decimal(self.0 as int) + ", type = "@
                + decimal(self.1 as int),
    {
        let mut s: String = String::new();
        s.append("Invalid ancillary received: level = ");
        append_i32(&mut s, self.0);
        s.append(", type = ");
        append_i32(&mut s, self.1);
        assert(s@ =~= "Invalid ancillary received: level = "@ + decimal(self.0 as int)
            + ", type = "@ + decimal(self.1 as int));
        s
    }
}

/// Ancillary data.
#[derive(Clone, Copy, Debug, PartialEq, Eq, Structural)]
pub enum Ancillary {
    /// Time to live.
    TTL(u32),
    /// ECN field.
    ECN(ECNValue),
}

/// Numbers that the operating system uses for the levels and types of ancillary
/// data.
#[derive(Clone, Copy, Debug, PartialEq, Eq, Structural)]
pub struct SocketCodes {
    /// Level of IPv4.
    pub ip: i32,
    /// Level of IPv6.
    pub ipv6: i32,
    /// Type of the traffic class of IPv4.
    pub tos: i32,
    /// Type of the time to live of IPv4.
    pub ttl: i32,
    /// Type of the traffic class of IPv6.
    pub tclass: i32,
    /// Type of the hop limit of IPv6.
    pub hoplimit: i32,
}

/// The numbers of Linux.
pub open spec fn linux_codes() -> SocketCodes {
    SocketCodes { ip: 0, ipv6: 41, tos: 1, ttl: 2, tclass: 67, hoplimit: 52 }
}

/// The constants `IPPROTO_IP`, `IPPROTO_IPV6`, `IP_TOS`, `IP_TTL`, `IPV6_TCLASS`
/// and `IPV6_HOPLIMIT` of `libc`. This library is one for Linux, where they are the
/// numbers of [`linux_codes`] on all machines.
#[verifier::external_body]
fn socket_codes() -> (r: SocketCodes)
    ensures
        r == linux_codes(),
{
    SocketCodes {
        ip: libc::IPPROTO_IP,
        ipv6: libc::IPPROTO_IPV6,
        tos: libc::IP_TOS,
        ttl: libc::IP_TTL,
        tclass: libc::IPV6_TCLASS,
        hoplimit: libc::IPV6_HOPLIMIT,
    }
}

/// What ancillary data of the given level and type stands for.
pub open spec fn parsed(codes: SocketCodes, level: i32, kind: i32, data: u8) -> core::result::Result<
    Ancillary,
    AncillaryError,
> {
    if (level == codes.ip && kind == codes.tos) || (level == codes.ipv6 && kind == codes.tclass) {
        Ok(Ancillary::ECN(ecn_of(data)))
    } else if (level == codes.ip && kind == codes.ttl) || (level == codes.ipv6 && kind
        == codes.hoplimit) {
        Ok(Ancillary::TTL(data as u32))
    } else {
        Err(AncillaryError(level, kind))
    }
}

impl Ancillary {
    /// Parses ancillary data of a system with the given numbers.
    pub fn parse(codes: &SocketCodes, cmsg_level: i32, cmsg_type: i32, data: u8) -> (r:
        core::result::Result<Ancillary, AncillaryError>)
        ensures
            r == parsed(*codes, cmsg_level, cmsg_type, data),
    {
        if (cmsg_level == codes.ip && cmsg_type == codes.tos) || (cmsg_level == codes.ipv6
            && cmsg_type == codes.tclass) {
            Ok(Ancillary::ECN(ECNValue::from(data)))
        } else if (cmsg_level == codes.ip && cmsg_type == codes.ttl) || (cmsg_level == codes.ipv6
            && cmsg_type == codes.hoplimit) {
            Ok(Ancillary::TTL(data as u32))
        } else {
            Err(AncillaryError(cmsg_level, cmsg_type))
        }
    }

    /// Parses ancillary data that came with a datagram: its level, its type and
    /// its first byte.
    pub fn from_raw(cmsg_level: i32, cmsg_type: i32, data: u8) -> (r: core::result::Result<
        Ancillary,
        AncillaryError,
    >)
        ensures
            r == parsed(linux_codes(), cmsg_level, cmsg_type, data),
    {
        Self::parse(&socket_codes(), cmsg_level, cmsg_type, data)
    }
}

/// The two low bits of the traffic class are the ECN field, in the encoding of IP: 0 for no
/// ECN, 1 for ECT(1), 2 for ECT(0) and 3 for congestion.
pub proof fn ecn_field_has_two_bits(value: u8)
    ensures
        ecn_of(value) == ECNValue::NotEct <==> value % 4 == 0,
        ecn_of(value) == ECNValue::ECT1 <==> value % 4 == 1,
        ecn_of(value) == ECNValue::ECT0 <==> value % 4 == 2,
        ecn_of(value) == ECNValue::CE <==> value % 4 == 3,
        ecn_bits(ecn_of(value)) == value % 4,
{
}

/// On Linux the traffic class comes with the type 1 of the level 0 of IPv4 or the type 67 of
/// the level 41 of IPv6, and the time to live with their types 2 and 52. All other ancillary
/// data is refused, with its level and its type.
pub proof fn only_known_ancillary_data_is_parsed(level: i32, kind: i32, data: u8)
    ensures
        ({
            let class = (level == 0 && kind == 1) || (level == 41 && kind == 67);
            let ttl = (level == 0 && kind == 2) || (level == 41 && kind == 52);
            let r = parsed(linux_codes(), level, kind, data);
            &&& class ==> r == Ok::<Ancillary, AncillaryError>(Ancillary::ECN(ecn_of(data)))
            &&& ttl ==> r == Ok::<Ancillary, AncillaryError>(Ancillary::TTL(data as u32))
            &&& !class && !ttl ==> r == Err::<Ancillary, AncillaryError>(
                AncillaryError(level, kind),
            )
        }),
{
}

} // verus!
