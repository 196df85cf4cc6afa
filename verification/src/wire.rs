//! The fixed-size structures of the ADS wire format.
//!
//! Each structure has a spec function `bytes`, which is its layout
//! (little-endian, unpadded), and an executable encoder or decoder that is
//! proved against it.

use crate::bytes::{get_u16, get_u32, le_u16, le_u32, u16_bytes, u16_le, u32_bytes, u32_le};
use crate::netid::AmsNetId;
use vstd::prelude::*;

verus! {

/// Size of the AMS/TCP header.
pub const TCP_HEADER_SIZE: usize = 6;

/// Size of the AMS/TCP and AMS headers together.
pub const AMS_HEADER_SIZE: usize = 38;

/// Appends the little-endian encoding of `n` to `out`.
pub fn put_u16(out: &mut Vec<u8>, n: u16)
    ensures
        final(out)@ == old(out)@ + u16_le(n),
{
    let b = u16_bytes(n);
    out.extend_from_slice(&b);
}

/// Appends the little-endian encoding of `n` to `out`.
pub fn put_u32(out: &mut Vec<u8>, n: u32)
    ensures
        final(out)@ == old(out)@ + u32_le(n),
{
    let b = u32_bytes(n);
    out.extend_from_slice(&b);
}

/// The AMS/TCP header followed by the AMS header.
#[derive(Clone, Copy, Debug, PartialEq, Eq)]
pub struct AdsHeader {
    /// 0 for an ADS command, 1 to close a port, 0x1000 to open one, 0x1001 for
    /// a note from the router, 0x1002 to get the local NetID.
    pub ams_cmd: u16,
    /// Number of bytes that follow the AMS/TCP header.
    pub length: u32,
    /// NetID of the receiver.
    pub dest_netid: AmsNetId,
    /// Port of the receiver.
    pub dest_port: u16,
    /// NetID of the sender.
    pub src_netid: AmsNetId,
    /// Port of the sender.
    pub src_port: u16,
    /// The ADS command.
    pub command: u16,
    /// 4 for a request, 5 for a reply.
    pub state_flags: u16,
    /// Number of bytes that follow the AMS header.
    pub data_length: u32,
    /// The AMS error code.
    pub error_code: u32,
    /// The number that pairs a reply with its request.
    pub invoke_id: u32,
}

impl AdsHeader {
    /// The 38 bytes of the header.
    pub open spec fn bytes(self) -> Seq<u8> {
        u16_le(self.ams_cmd) + u32_le(self.length) + self.dest_netid.bytes() + u16_le(
            self.dest_port,
        ) + self.src_netid.bytes() + u16_le(self.src_port) + u16_le(self.command) + u16_le(
            self.state_flags,
        ) + u32_le(self.data_length) + u32_le(self.error_code) + u32_le(self.invoke_id)
    }

    /// The header that the first 38 bytes of `s` encode.
    pub open spec fn decode(s: Seq<u8>) -> AdsHeader
        recommends
            s.len() >= 38,
    {
        AdsHeader {
            ams_cmd: le_u16(s.subrange(0, 2)),
            length: le_u32(s.subrange(2, 6)),
            dest_netid: AmsNetId(spec_netid_array(s.subrange(6, 12))),
            dest_port: le_u16(s.subrange(12, 14)),
            src_netid: AmsNetId(spec_netid_array(s.subrange(14, 20))),
            src_port: le_u16(s.subrange(20, 22)),
            command: le_u16(s.subrange(22, 24)),
            state_flags: le_u16(s.subrange(24, 26)),
            data_length: le_u32(s.subrange(26, 30)),
            error_code: le_u32(s.subrange(30, 34)),
            invoke_id: le_u32(s.subrange(34, 38)),
        }
    }

    /// The header, encoded.
    pub fn to_bytes(&self) -> (r: Vec<u8>)
        ensures
            r@ == self.bytes(),
            r@.len() == 38,
    {
        let mut out: Vec<u8> = Vec::with_capacity(AMS_HEADER_SIZE);
        put_u16(&mut out, self.ams_cmd);
        put_u32(&mut out, self.length);
        out.extend_from_slice(&self.dest_netid.0);
        put_u16(&mut out, self.dest_port);
        out.extend_from_slice(&self.src_netid.0);
        put_u16(&mut out, self.src_port);
        put_u16(&mut out, self.command);
        put_u16(&mut out, self.state_flags);
        put_u32(&mut out, self.data_length);
        put_u32(&mut out, self.error_code);
        put_u32(&mut out, self.invoke_id);
        out
    }

    /// The header at the start of `buf`; `None` if `buf` is shorter than a
    /// header.
    pub fn parse(buf: &[u8]) -> (r: Option<AdsHeader>)
        ensures
            r is Some <==> buf@.len() >= 38,
            r matches Some(h) ==> h == AdsHeader::decode(buf@) && h.bytes() == buf@.subrange(0, 38),
    {
        if buf.len() < AMS_HEADER_SIZE {
            return None;
        }
        let dest_netid = AmsNetId([buf[6], buf[7], buf[8], buf[9], buf[10], buf[11]]);
        let src_netid = AmsNetId([buf[14], buf[15], buf[16], buf[17], buf[18], buf[19]]);
        let h = AdsHeader {
            ams_cmd: get_u16(buf, 0),
            length: get_u32(buf, 2),
            dest_netid,
            dest_port: get_u16(buf, 12),
            src_netid,
            src_port: get_u16(buf, 20),
            command: get_u16(buf, 22),
            state_flags: get_u16(buf, 24),
            data_length: get_u32(buf, 26),
            error_code: get_u32(buf, 30),
            invoke_id: get_u32(buf, 34),
        };
        proof {
            let s = buf@;
            lemma_netid_array(s.subrange(6, 12));
            lemma_netid_array(s.subrange(14, 20));
            assert(dest_netid.0 =~= spec_netid_array(s.subrange(6, 12)));
            assert(src_netid.0 =~= spec_netid_array(s.subrange(14, 20)));
            AdsHeader::lemma_decode_bytes(s);
        }
        Some(h)
    }

    /// Encoding the header that a sequence of bytes decodes to gives its
    /// first 38 bytes back.
    pub proof fn lemma_decode_bytes(s: Seq<u8>)
        requires
            s.len() >= 38,
        ensures
            AdsHeader::decode(s).bytes() == s.subrange(0, 38),
    {
        let h = AdsHeader::decode(s);
        crate::bytes::lemma_u16_bytes_roundtrip(s.subrange(0, 2));
        crate::bytes::lemma_u32_bytes_roundtrip(s.subrange(2, 6));
        lemma_netid_array(s.subrange(6, 12));
        crate::bytes::lemma_u16_bytes_roundtrip(s.subrange(12, 14));
        lemma_netid_array(s.subrange(14, 20));
        crate::bytes::lemma_u16_bytes_roundtrip(s.subrange(20, 22));
        crate::bytes::lemma_u16_bytes_roundtrip(s.subrange(22, 24));
        crate::bytes::lemma_u16_bytes_roundtrip(s.subrange(24, 26));
        crate::bytes::lemma_u32_bytes_roundtrip(s.subrange(26, 30));
        crate::bytes::lemma_u32_bytes_roundtrip(s.subrange(30, 34));
        crate::bytes::lemma_u32_bytes_roundtrip(s.subrange(34, 38));
        assert(h.bytes() =~= s.subrange(0, 38));
    }

    /// Decoding an encoded header gives the header back, field by field.
    pub proof fn lemma_roundtrip(self)
        ensures
            self.bytes().len() == 38,
            AdsHeader::decode(self.bytes()) == self,
    {
        let s = self.bytes();
        let d = AdsHeader::decode(s);
        crate::bytes::lemma_u16_roundtrip(self.ams_cmd);
        crate::bytes::lemma_u32_roundtrip(self.length);
        crate::bytes::lemma_u16_roundtrip(self.dest_port);
        crate::bytes::lemma_u16_roundtrip(self.src_port);
        crate::bytes::lemma_u16_roundtrip(self.command);
        crate::bytes::lemma_u16_roundtrip(self.state_flags);
        crate::bytes::lemma_u32_roundtrip(self.data_length);
        crate::bytes::lemma_u32_roundtrip(self.error_code);
        crate::bytes::lemma_u32_roundtrip(self.invoke_id);
        assert(s.subrange(0, 2) =~= u16_le(self.ams_cmd));
        assert(s.subrange(2, 6) =~= u32_le(self.length));
        assert(s.subrange(6, 12) =~= self.dest_netid.bytes());
        assert(s.subrange(12, 14) =~= u16_le(self.dest_port));
        assert(s.subrange(14, 20) =~= self.src_netid.bytes());
        assert(s.subrange(20, 22) =~= u16_le(self.src_port));
        assert(s.subrange(22, 24) =~= u16_le(self.command));
        assert(s.subrange(24, 26) =~= u16_le(self.state_flags));
        assert(s.subrange(26, 30) =~= u32_le(self.data_length));
        assert(s.subrange(30, 34) =~= u32_le(self.error_code));
        assert(s.subrange(34, 38) =~= u32_le(self.invoke_id));
        lemma_netid_array(self.dest_netid.bytes());
        lemma_netid_array(self.src_netid.bytes());
        assert(d.dest_netid.0 =~= self.dest_netid.0);
        assert(d.src_netid.0 =~= self.src_netid.0);
    }
}

/// Index group, index offset and length: the head of a read or write.
#[derive(Clone, Copy, Debug, PartialEq, Eq)]
pub struct IndexLength {
    /// The index group.
    pub index_group: u32,
    /// The index offset.
    pub index_offset: u32,
    /// Number of bytes to read, or that follow to be written.
    pub length: u32,
}

impl IndexLength {
    /// The 12 bytes of the structure.
    pub open spec fn bytes(self) -> Seq<u8> {
        u32_le(self.index_group) + u32_le(self.index_offset) + u32_le(self.length)
    }

    /// The structure, encoded.
    pub fn to_bytes(&self) -> (r: [u8; 12])
        ensures
            r@ == self.bytes(),
    {
        let g = u32_bytes(self.index_group);
        let o = u32_bytes(self.index_offset);
        let l = u32_bytes(self.length);
        let r = [g[0], g[1], g[2], g[3], o[0], o[1], o[2], o[3], l[0], l[1], l[2], l[3]];
        assert(r@ =~= self.bytes());
        r
    }
}

/// Index group, index offset and two lengths: the head of a write that
/// reads back.
#[derive(Clone, Copy, Debug, PartialEq, Eq)]
pub struct IndexLengthRW {
    /// The index group.
    pub index_group: u32,
    /// The index offset.
    pub index_offset: u32,
    /// Number of bytes to read.
    pub read_length: u32,
    /// Number of bytes that follow to be written.
    pub write_length: u32,
}

impl IndexLengthRW {
    /// The 16 bytes of the structure.
    pub open spec fn bytes(self) -> Seq<u8> {
        u32_le(self.index_group) + u32_le(self.index_offset) + u32_le(self.read_length) + u32_le(
            self.write_length,
        )
    }

    /// The structure, encoded.
    pub fn to_bytes(&self) -> (r: [u8; 16])
        ensures
            r@ == self.bytes(),
    {
        let g = u32_bytes(self.index_group);
        let o = u32_bytes(self.index_offset);
        let l = u32_bytes(self.read_length);
        let w = u32_bytes(self.write_length);
        let r = [
            g[0],
            g[1],
            g[2],
            g[3],
            o[0],
            o[1],
            o[2],
            o[3],
            l[0],
            l[1],
            l[2],
            l[3],
            w[0],
            w[1],
            w[2],
            w[3],
        ];
        assert(r@ =~= self.bytes());
        r
    }
}

/// A result code and a length, as each part of a sum-up reply starts.
#[derive(Clone, Copy, Debug, PartialEq, Eq)]
pub struct ResultLength {
    /// The result code; zero is success.
    pub result: u32,
    /// The length of the data returned, or the handle.
    pub length: u32,
}

impl ResultLength {
    /// The structure that the first eight bytes of `s` encode.
    pub open spec fn decode(s: Seq<u8>) -> ResultLength
        recommends
            s.len() >= 8,
    {
        ResultLength { result: le_u32(s.subrange(0, 4)), length: le_u32(s.subrange(4, 8)) }
    }

    /// Decodes the structure.
    pub fn from_bytes(bytes: &[u8; 8]) -> (r: ResultLength)
        ensures
            r == ResultLength::decode(bytes@),
    {
        ResultLength { result: get_u32(bytes.as_slice(), 0), length: get_u32(bytes.as_slice(), 4) }
    }
}

/// The ADS state and the device state, as a state reply holds them.
#[derive(Clone, Copy, Debug, PartialEq, Eq)]
pub struct ReadState {
    /// The ADS state.
    pub ads_state: u16,
    /// The device state.
    pub dev_state: u16,
}

impl ReadState {
    /// The structure that the first four bytes of `s` encode.
    pub open spec fn decode(s: Seq<u8>) -> ReadState
        recommends
            s.len() >= 4,
    {
        ReadState { ads_state: le_u16(s.subrange(0, 2)), dev_state: le_u16(s.subrange(2, 4)) }
    }

    /// Decodes the structure.
    pub fn from_bytes(bytes: &[u8; 4]) -> (r: ReadState)
        ensures
            r == ReadState::decode(bytes@),
    {
        ReadState { ads_state: get_u16(bytes.as_slice(), 0), dev_state: get_u16(bytes.as_slice(), 2) }
    }
}

/// The states to set, and the length of the data that follows (none).
#[derive(Clone, Copy, Debug, PartialEq, Eq)]
pub struct WriteControl {
    /// The ADS state.
    pub ads_state: u16,
    /// The device state.
    pub dev_state: u16,
    /// Number of bytes that follow.
    pub data_length: u32,
}

impl WriteControl {
    /// The 8 bytes of the structure.
    pub open spec fn bytes(self) -> Seq<u8> {
        u16_le(self.ads_state) + u16_le(self.dev_state) + u32_le(self.data_length)
    }

    /// The structure, encoded.
    pub fn to_bytes(&self) -> (r: [u8; 8])
        ensures
            r@ == self.bytes(),
    {
        let a = u16_bytes(self.ads_state);
        let d = u16_bytes(self.dev_state);
        let l = u32_bytes(self.data_length);
        let r = [a[0], a[1], d[0], d[1], l[0], l[1], l[2], l[3]];
        assert(r@ =~= self.bytes());
        r
    }
}

/// What to be notified of, and how.
#[derive(Clone, Copy, Debug, PartialEq, Eq)]
pub struct AddNotif {
    /// The index group.
    pub index_group: u32,
    /// The index offset.
    pub index_offset: u32,
    /// Length of the data of interest.
    pub length: u32,
    /// The transmission mode.
    pub trans_mode: u32,
    /// The maximum delay, in milliseconds.
    pub max_delay: u32,
    /// The cycle time, in milliseconds.
    pub cycle_time: u32,
}

impl AddNotif {
    /// The 40 bytes of the structure: six integers and 16 reserved bytes,
    /// which are zero.
    pub open spec fn bytes(self) -> Seq<u8> {
        u32_le(self.index_group) + u32_le(self.index_offset) + u32_le(self.length) + u32_le(
            self.trans_mode,
        ) + u32_le(self.max_delay) + u32_le(self.cycle_time) + Seq::new(16, |i: int| 0u8)
    }

    /// The structure, encoded.
    pub fn to_bytes(&self) -> (r: [u8; 40])
        ensures
            r@ == self.bytes(),
    {
        let g = u32_bytes(self.index_group);
        let o = u32_bytes(self.index_offset);
        let l = u32_bytes(self.length);
        let t = u32_bytes(self.trans_mode);
        let d = u32_bytes(self.max_delay);
        let c = u32_bytes(self.cycle_time);
        let r = [
            g[0], g[1], g[2], g[3], o[0], o[1], o[2], o[3], l[0], l[1], l[2], l[3], t[0], t[1], t[2], t[3],
            d[0], d[1], d[2], d[3], c[0], c[1], c[2], c[3], 0, 0, 0, 0, 0, 0, 0, 0, 0, 0, 0, 0, 0, 0, 0, 0,
        ];
        assert(r@ =~= self.bytes());
        r
    }
}

/// The device info, as the reply holds it.
#[derive(Clone, Copy, Debug, PartialEq, Eq)]
pub struct DeviceInfoRaw {
    /// Major version.
    pub major: u8,
    /// Minor version.
    pub minor: u8,
    /// Build version.
    pub version: u16,
    /// The name, ended by a zero byte if it is shorter than the field.
    pub name: [u8; 16],
}

impl DeviceInfoRaw {
    /// Decodes the structure.
    pub fn from_bytes(bytes: &[u8; 20]) -> (r: DeviceInfoRaw)
        ensures
            r.major == bytes@[0],
            r.minor == bytes@[1],
            r.version == le_u16(bytes@.subrange(2, 4)),
            r.name@ == bytes@.subrange(4, 20),
    {
        let b = bytes;
        let name = [
            b[4], b[5], b[6], b[7], b[8], b[9], b[10], b[11], b[12], b[13], b[14], b[15], b[16], b[17],
            b[18], b[19],
        ];
        assert(name@ =~= bytes@.subrange(4, 20));
        DeviceInfoRaw { major: b[0], minor: b[1], version: get_u16(b.as_slice(), 2), name }
    }
}

/// The array that holds the six bytes of `s`.
pub closed spec fn spec_netid_array(s: Seq<u8>) -> [u8; 6] {
    choose|a: [u8; 6]| a@ == s
}

/// Every sequence of six bytes is the content of an array.
pub proof fn lemma_netid_array(s: Seq<u8>)
    requires
        s.len() == 6,
    ensures
        spec_netid_array(s)@ == s,
{
    let a: [u8; 6] = [s[0], s[1], s[2], s[3], s[4], s[5]];
    assert(a@ =~= s);
}

} // verus!
