//! Network addresses.

use vstd::prelude::*;

verus! {

/// An IP address.
#[derive(Clone, Copy, Debug, PartialEq, Eq)]
pub enum IpAddr {
    /// IPv4 address.
    V4([u8; 4]),
    /// IPv6 address.
    V6([u8; 16]),
}

/// An IP address and a port.
#[derive(Clone, Copy, Debug, PartialEq, Eq)]
pub struct SocketAddr {
    /// Address.
    pub ip: IpAddr,
    /// Port.
    pub port: u16,
}

impl IpAddr {
    /// The bytes of the address.
    pub open spec fn octets(self) -> Seq<u8> {
        match self {
            IpAddr::V4(a) => a@,
            IpAddr::V6(a) => a@,
        }
    }

    /// The bytes of the address.
    pub fn to_bytes(&self) -> (r: Vec<u8>)
        ensures
            r@ == self.octets(),
    {
        let mut r: Vec<u8> = Vec::new();
        let mut i: usize = 0;
        match self {
            IpAddr::V4(a) => {
                while i < 4
                    invariant
                        i <= 4,
                        r@ == a@.take(i as int),
                    decreases 4 - i,
                {
                    r.push(a[i]);
                    i += 1;
                    assert(r@ =~= a@.take(i as int));
                }
                assert(r@ =~= a@);
            },
            IpAddr::V6(a) => {
                while i < 16
                    invariant
                        i <= 16,
                        r@ == a@.take(i as int),
                    decreases 16 - i,
                {
                    r.push(a[i]);
                    i += 1;
                    assert(r@ =~= a@.take(i as int));
                }
                assert(r@ =~= a@);
            },
        }
        r
    }
}

/// The bytes of an address are its own, four or sixteen of them, in their order.
pub proof fn addresses_have_four_or_sixteen_bytes(ip: IpAddr, i: int)
    ensures
        ip matches IpAddr::V4(a) ==> ip.octets().len() == 4 && (0 <= i < 4 ==> ip.octets()[i]
            == a[i]),
        ip matches IpAddr::V6(a) ==> ip.octets().len() == 16 && (0 <= i < 16 ==> ip.octets()[i]
            == a[i]),
{
}

} // verus!
