//! AMS addresses: a six-byte NetID and a port.

use crate::bytes::{get_u16, u16_bytes, u16_le};
use vstd::prelude::*;

verus! {

/// An AMS port.
pub type AmsPort = u16;

/// The six bytes that identify an AMS endpoint.
#[derive(Clone, Copy, Debug, PartialEq, Eq, PartialOrd, Ord, Hash)]
pub struct AmsNetId(pub [u8; 6]);

/// An AMS endpoint: NetID and port.
#[derive(Clone, Copy, Debug, PartialEq, Eq, PartialOrd, Ord, Hash)]
pub struct AmsAddr {
    netid: AmsNetId,
    port: AmsPort,
}

/// The bytes of the reserved NetID `127.0.0.1.1.1`, which stands for the
/// client's own NetID.
pub open spec fn local_netid_bytes() -> Seq<u8> {
    seq![127u8, 0u8, 0u8, 1u8, 1u8, 1u8]
}

impl AmsNetId {
    /// The six bytes, as they go on the wire.
    pub open spec fn bytes(self) -> Seq<u8> {
        self.0@
    }

    /// The NetID `a.b.c.d.e.f`.
    pub fn new(a: u8, b: u8, c: u8, d: u8, e: u8, f: u8) -> (r: Self)
        ensures
            r.bytes() == seq![a, b, c, d, e, f],
    {
        let r = AmsNetId([a, b, c, d, e, f]);
        assert(r.bytes() =~= seq![a, b, c, d, e, f]);
        r
    }

    /// The reserved NetID `127.0.0.1.1.1`.
    pub fn local() -> (r: Self)
        ensures
            r.bytes() == local_netid_bytes(),
    {
        AmsNetId::new(127, 0, 0, 1, 1, 1)
    }

    /// The NetID made of the six bytes of `slice`; `None` for any other length.
    pub fn from_slice(slice: &[u8]) -> (r: Option<Self>)
        ensures
            slice@.len() == 6 <==> r is Some,
            r matches Some(id) ==> id.bytes() == slice@,
    {
        if slice.len() != 6 {
            return None;
        }
        let r = AmsNetId([slice[0], slice[1], slice[2], slice[3], slice[4], slice[5]]);
        assert(r.bytes() =~= slice@);
        Some(r)
    }

    /// Whether all six bytes are zero.
    pub fn is_zero(&self) -> (r: bool)
        ensures
            r <==> self.bytes() == seq![0u8, 0u8, 0u8, 0u8, 0u8, 0u8],
    {
        let r = self.0[0] == 0 && self.0[1] == 0 && self.0[2] == 0 && self.0[3] == 0 && self.0[4]
            == 0 && self.0[5] == 0;
        assert(r <==> self.bytes() =~= seq![0u8, 0u8, 0u8, 0u8, 0u8, 0u8]) by {
            if !r {
                let z = seq![0u8, 0u8, 0u8, 0u8, 0u8, 0u8];
                assert(z[0] == 0 && z[1] == 0 && z[2] == 0 && z[3] == 0 && z[4] == 0 && z[5] == 0);
            }
        }
        r
    }

    /// Whether `self` and `other` are the same NetID.
    pub fn same(&self, other: &AmsNetId) -> (r: bool)
        ensures
            r <==> self.bytes() == other.bytes(),
            r <==> *self == *other,
    {
        let r = self.0[0] == other.0[0] && self.0[1] == other.0[1] && self.0[2] == other.0[2]
            && self.0[3] == other.0[3] && self.0[4] == other.0[4] && self.0[5] == other.0[5];
        assert(r <==> self.bytes() =~= other.bytes());
        assert(self.bytes() == other.bytes() ==> self.0 =~= other.0);
        r
    }
}

impl AmsAddr {
    /// The eight bytes of the address on the wire: the NetID, then the port
    /// in little-endian order.
    pub open spec fn wire(self) -> Seq<u8> {
        self.spec_netid().bytes() + u16_le(self.spec_port())
    }

    /// The NetID of the address.
    pub closed spec fn spec_netid(&self) -> AmsNetId {
        self.netid
    }

    /// The port of the address.
    pub closed spec fn spec_port(&self) -> AmsPort {
        self.port
    }

    /// The address of port `port` at `netid`.
    pub fn new(netid: AmsNetId, port: AmsPort) -> (r: Self)
        ensures
            r.spec_netid() == netid,
            r.spec_port() == port,
    {
        AmsAddr { netid, port }
    }

    /// The NetID of the address.
    #[verifier::when_used_as_spec(spec_netid)]
    pub fn netid(&self) -> (r: AmsNetId)
        ensures
            r == self.spec_netid(),
    {
        self.netid
    }

    /// The port of the address.
    #[verifier::when_used_as_spec(spec_port)]
    pub fn port(&self) -> (r: AmsPort)
        ensures
            r == self.spec_port(),
    {
        self.port
    }

    /// Whether `self` and `other` are the same address.
    pub fn same(&self, other: &AmsAddr) -> (r: bool)
        ensures
            r <==> *self == *other,
    {
        self.netid.same(&other.netid) && self.port == other.port
    }

    /// The eight bytes of the address on the wire.
    pub fn to_bytes(&self) -> (r: [u8; 8])
        ensures
            r@ == self.wire(),
    {
        let p = u16_bytes(self.port);
        let n = &self.netid.0;
        let r = [n[0], n[1], n[2], n[3], n[4], n[5], p[0], p[1]];
        assert(r@ =~= self.wire());
        r
    }

    /// Appends the eight bytes of the address to `out`.
    pub fn write_to(&self, out: &mut Vec<u8>)
        ensures
            final(out)@ == old(out)@ + self.wire(),
    {
        let b = self.to_bytes();
        out.extend_from_slice(&b);
    }

    /// The address whose wire form is the first eight bytes of `buf`; `None`
    /// if `buf` is shorter.
    pub fn read_from(buf: &[u8]) -> (r: Option<AmsAddr>)
        ensures
            buf@.len() >= 8 <==> r is Some,
            r matches Some(a) ==> a.wire() == buf@.subrange(0, 8),
    {
        if buf.len() < 8 {
            return None;
        }
        let netid = AmsNetId([buf[0], buf[1], buf[2], buf[3], buf[4], buf[5]]);
        let port = get_u16(buf, 6);
        let a = AmsAddr { netid, port };
        proof {
            crate::bytes::lemma_u16_bytes_roundtrip(buf@.subrange(6, 8));
            assert(a.wire() =~= buf@.subrange(0, 8));
        }
        Some(a)
    }


    /// An address is determined by its wire form.
    pub proof fn lemma_wire_injective(self, other: AmsAddr)
        requires
            self.wire() == other.wire(),
        ensures
            self == other,
    {
        let w = self.wire();
        let v = other.wire();
        assert(self.netid.bytes() =~= w.subrange(0, 6));
        assert(other.netid.bytes() =~= v.subrange(0, 6));
        assert(self.netid.0 =~= other.netid.0);
        assert(u16_le(self.port) =~= w.subrange(6, 8));
        assert(u16_le(other.port) =~= v.subrange(6, 8));
        crate::bytes::lemma_u16_roundtrip(self.port);
        crate::bytes::lemma_u16_roundtrip(other.port);
        assert(crate::bytes::le_u16(u16_le(self.port)) == crate::bytes::le_u16(u16_le(other.port)));
    }
}

} // verus!
