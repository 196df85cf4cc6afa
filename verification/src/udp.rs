//! Implements the Beckhoff UDP message protocol for basic operations.
//!
//! A packet is a header of 24 bytes (magic number, invoke ID, service,
//! source address, number of items) and then the items; an item is a tag
//! (2 bytes), a length (2 bytes) and that many bytes of data.

use crate::bytes::{
    append_u16, append_u32, get_u16, get_u32, le_u16, le_u32, u16_le, u32_le, write_u32,
};
use crate::errors::{ads_error, Error, IoError};
use crate::netid::{AmsAddr, AmsNetId};
use crate::text::{name_string, name_text, str_from_utf8};
use vstd::prelude::*;
use vstd::string::StringSliceAdditionalSpecFns;

verus! {

/// Magic number for the first four bytes of each UDP packet.
pub const BECKHOFF_UDP_MAGIC: u32 = 0x_71_14_66_03;

/// The bit of the service field that marks a reply.
pub const REPLY_BIT: u32 = 0x8000_0000;

/// Size of the header of a UDP packet.
pub const UDP_HEADER_SIZE: usize = 24;

/// The operation that the PLC should execute.
#[derive(Debug, Clone, Copy, PartialEq, Eq, Structural)]
pub enum ServiceId {
    /// Identify the PLC, TwinCAT and OS versions.
    Identify,
    /// Add a routing entry to the router.
    AddRoute,
}

impl ServiceId {
    /// The number of the service on the wire.
    pub open spec fn spec_code(self) -> u32 {
        match self {
            ServiceId::Identify => 1,
            ServiceId::AddRoute => 6,
        }
    }

    /// The number of the service on the wire.
    #[verifier::when_used_as_spec(spec_code)]
    pub fn code(self) -> (r: u32)
        ensures
            r == self.spec_code(),
    {
        match self {
            ServiceId::Identify => 1,
            ServiceId::AddRoute => 6,
        }
    }
}

/// Identifies a piece of information in the UDP message.
#[derive(Debug, Clone, Copy, PartialEq, Eq, Structural)]
#[allow(missing_docs)]
pub enum Tag {
    Status,
    Password,
    TCVersion,
    OSVersion,
    ComputerName,
    NetID,
    Options,
    RouteName,
    UserName,
    Fingerprint,
}

impl Tag {
    /// The number of the tag on the wire.
    pub open spec fn spec_code(self) -> u16 {
        match self {
            Tag::Status => 1,
            Tag::Password => 2,
            Tag::TCVersion => 3,
            Tag::OSVersion => 4,
            Tag::ComputerName => 5,
            Tag::NetID => 7,
            Tag::Options => 9,
            Tag::RouteName => 12,
            Tag::UserName => 13,
            Tag::Fingerprint => 18,
        }
    }

    /// The number of the tag on the wire.
    #[verifier::when_used_as_spec(spec_code)]
    pub fn code(self) -> (r: u16)
        ensures
            r == self.spec_code(),
    {
        match self {
            Tag::Status => 1,
            Tag::Password => 2,
            Tag::TCVersion => 3,
            Tag::OSVersion => 4,
            Tag::ComputerName => 5,
            Tag::NetID => 7,
            Tag::Options => 9,
            Tag::RouteName => 12,
            Tag::UserName => 13,
            Tag::Fingerprint => 18,
        }
    }
}

/// The service field of a packet for the service with the number
/// `service`: a reply has the high bit set.
pub open spec fn service_field(service: u32, reply: bool) -> u32 {
    if reply && service < REPLY_BIT {
        (service + REPLY_BIT) as u32
    } else {
        service
    }
}

/// The header of a packet from the address with the wire form `source`.
pub open spec fn udp_header(service: u32, source: Seq<u8>, num_items: u32) -> Seq<u8> {
    u32_le(BECKHOFF_UDP_MAGIC) + u32_le(0) + u32_le(service) + source + u32_le(num_items)
}

/// The bytes `s` with those from `at` on overwritten by `with`.
pub open spec fn patched(s: Seq<u8>, at: int, with: Seq<u8>) -> Seq<u8> {
    s.subrange(0, at) + with + s.subrange(at + with.len(), s.len() as int)
}

/// An item as it is recorded: its tag, and where its data starts and ends
/// in the packet.
pub type Item = (u16, usize, usize);

/// The items of the packet `s` from the offset `pos` on, as the parser
/// records them: the range of each covers its data.  A single byte left
/// over at the end is passed over.  `None` if an item is cut short.
pub open spec fn items_from(s: Seq<u8>, pos: int) -> Option<Seq<Item>>
    decreases s.len() - pos,
{
    if pos < 0 || pos + 2 > s.len() {
        Some(Seq::empty())
    } else if pos + 4 > s.len() {
        None
    } else {
        let tag = le_u16(s.subrange(pos, pos + 2));
        let len = le_u16(s.subrange(pos + 2, pos + 4));
        if pos + 4 + len > s.len() {
            None
        } else {
            match items_from(s, pos + 4 + len) {
                None => None,
                Some(rest) => Some(seq![(tag, (pos + 4) as usize, (pos + 4 + len) as usize)] + rest),
            }
        }
    }
}

/// Why the packet `s` is refused where the service field `exp_service` is
/// expected; `None` if it is accepted.
pub open spec fn parse_fault(s: Seq<u8>, exp_service: u32) -> Option<Error> {
    if s.len() < 12 {
        Some(Error::Io(IoError::UnexpectedEof))
    } else if le_u32(s.subrange(0, 4)) != BECKHOFF_UDP_MAGIC {
        Some(Error::Io(IoError::InvalidMagic))
    } else if le_u32(s.subrange(4, 8)) != 0 {
        Some(Error::Io(IoError::InvalidInvokeId))
    } else if le_u32(s.subrange(8, 12)) != exp_service {
        Some(Error::Io(IoError::InvalidService))
    } else if s.len() < 24 {
        Some(Error::Io(IoError::UnexpectedEof))
    } else if items_from(s, 24) is None {
        Some(Error::Io(IoError::UnexpectedEof))
    } else {
        None
    }
}

/// The first of `items` with the tag `tag`, from index `i` on.
pub open spec fn find_item(items: Seq<Item>, tag: u16, i: int) -> Option<Item>
    decreases items.len() - i,
{
    if i < 0 || i >= items.len() {
        None
    } else if items[i].0 == tag {
        Some(items[i])
    } else {
        find_item(items, tag, i + 1)
    }
}

/// Represents a message in the UDP protocol.
pub struct Message {
    items: Vec<Item>,
    data: Vec<u8>,
}

/// Whether each of `items` lies within a packet of `len` bytes.
pub open spec fn items_within(items: Seq<Item>, len: nat) -> bool {
    forall|k: int| 0 <= k < items.len() ==> (#[trigger] items[k]).1 <= items[k].2 <= len
}

/// The items that a parser finds lie within the packet.
pub proof fn lemma_items_from_within(s: Seq<u8>, pos: int)
    requires
        0 <= pos,
        s.len() <= usize::MAX,
        items_from(s, pos) is Some,
    ensures
        items_within(items_from(s, pos)->0, s.len()),
    decreases s.len() - pos,
{
    if pos + 4 <= s.len() {
        let len = le_u16(s.subrange(pos + 2, pos + 4));
        lemma_items_from_within(s, pos + 4 + len);
    }
}

impl Message {
    /// Whether the message is in order: it has a header, and its items lie
    /// within the packet.  Every message that this module makes is.
    pub closed spec fn wf(&self) -> bool {
        self.data@.len() >= 24 && items_within(self.items@, self.data@.len())
    }

    /// A message in order has a header.
    pub proof fn lemma_wf(&self)
        requires
            self.wf(),
        ensures
            self.bytes().len() >= 24,
            items_within(self.items(), self.bytes().len()),
    {
    }

    /// The bytes of the packet.
    pub closed spec fn bytes(&self) -> Seq<u8> {
        self.data@
    }

    /// The items of the message, in the order of the packet.
    pub closed spec fn items(&self) -> Seq<Item> {
        self.items@
    }

    /// The data of the first item with the tag `tag`, if there is one.
    pub open spec fn item_data(&self, tag: u16) -> Option<Seq<u8>> {
        match find_item(self.items(), tag, 0) {
            Some(item) => Some(self.bytes().subrange(item.1 as int, item.2 as int)),
            None => None,
        }
    }

    /// Create a new UDP message backed by a byte vector.
    pub fn new(service: ServiceId, source: AmsAddr) -> (r: Self)
        ensures
            r.wf(),
            r.bytes() == udp_header(service.spec_code(), source.wire(), 0),
            r.items() == Seq::<Item>::empty(),
    {
        let mut data: Vec<u8> = Vec::with_capacity(UDP_HEADER_SIZE);
        append_u32(&mut data, BECKHOFF_UDP_MAGIC);
        append_u32(&mut data, 0);
        append_u32(&mut data, service.code());
        source.write_to(&mut data);
        append_u32(&mut data, 0);  // will be adapted later
        Self { items: Vec::with_capacity(8), data }
    }

    /// Sets the service field of the header: `service`, marked as a reply or
    /// not.
    pub fn set_service(&mut self, service: ServiceId, reply: bool)
        requires
            old(self).wf(),
        ensures
            final(self).wf(),
            final(self).bytes() == patched(
                old(self).bytes(),
                8,
                u32_le(service_field(service.spec_code(), reply)),
            ),
            final(self).items() == old(self).items(),
    {
        let service = if reply {
            service.code() + REPLY_BIT
        } else {
            service.code()
        };
        put_u32_at(&mut self.data, 8, service);
    }

    /// Parse a UDP message from a byte slice.
    pub fn parse(data: &[u8], exp_service: ServiceId, reply: bool) -> (r: Result<Self, Error>)
        ensures
            match parse_fault(data@, service_field(exp_service.spec_code(), reply)) {
                Some(e) => r matches Err(f) && f == e,
                None => r matches Ok(m) && m.wf() && m.bytes() == data@ && m.items() == items_from(
                    data@,
                    24,
                )->0,
            },
    {
        let exp_service = if reply {
            exp_service.code() + REPLY_BIT
        } else {
            exp_service.code()
        };
        Self::parse_internal(data, exp_service)
    }

    /// Parse a UDP message whose service field is to be `exp_service`.
    pub fn parse_internal(data: &[u8], exp_service: u32) -> (r: Result<Self, Error>)
        ensures
            match parse_fault(data@, exp_service) {
                Some(e) => r matches Err(f) && f == e,
                None => r matches Ok(m) && m.wf() && m.bytes() == data@ && m.items() == items_from(
                    data@,
                    24,
                )->0,
            },
    {
        let total = data.len();
        if total < 12 {
            return Err(Error::Io(IoError::UnexpectedEof));
        }
        let magic = get_u32(data, 0);
        let invoke_id = get_u32(data, 4);
        let rep_service = get_u32(data, 8);
        if magic != BECKHOFF_UDP_MAGIC {
            return Err(Error::Io(IoError::InvalidMagic));
        }
        if invoke_id != 0 {
            // we're only generating 0
            return Err(Error::Io(IoError::InvalidInvokeId));
        }
        if rep_service != exp_service {
            return Err(Error::Io(IoError::InvalidService));
        }
        if total < UDP_HEADER_SIZE {
            return Err(Error::Io(IoError::UnexpectedEof));
        }
        let ghost s = data@;
        let mut items: Vec<Item> = Vec::new();
        let mut pos: usize = UDP_HEADER_SIZE;
        while total - pos >= 2
            invariant
                data@ == s,
                total == s.len(),
                24 <= pos <= total,
                parse_fault(s, exp_service) == (if items_from(s, 24) is None {
                    Some(Error::Io(IoError::UnexpectedEof))
                } else {
                    None::<Error>
                }),
                items_from(s, 24) == (match items_from(s, pos as int) {
                    None => None::<Seq<Item>>,
                    Some(rest) => Some(items@ + rest),
                }),
            decreases total - pos,
        {
            if total - pos < 4 {
                return Err(Error::Io(IoError::UnexpectedEof));
            }
            let tag = get_u16(data, pos);
            let len = get_u16(data, pos + 2) as usize;
            if total - pos - 4 < len {
                return Err(Error::Io(IoError::UnexpectedEof));
            }
            proof {
                let rest = items_from(s, pos + 4 + len);
                if rest is Some {
                    let item = (tag, (pos + 4) as usize, (pos + 4 + len) as usize);
                    assert(items@ + (seq![item] + rest->0) =~= items@.push(item) + rest->0);
                }
            }
            items.push((tag, pos + 4, pos + 4 + len));
            pos += len + 4;
        }
        proof {
            assert(items_from(s, pos as int) == Some(Seq::<Item>::empty()));
            assert(items@ + Seq::<Item>::empty() =~= items@);
            lemma_items_from_within(s, 24);
        }
        Ok(Self { data: vstd::slice::slice_to_vec(data), items })
    }

    /// Appends the tag of a new item, and its length if it fits 16 bits.
    /// Returns where the length field starts.
    fn open_item(data: &mut Vec<u8>, tag: Tag, len: usize) -> (r: Result<usize, Error>)
        ensures
            r is Err <==> len > u16::MAX,
            r matches Err(e) ==> e == Error::InvalidData && final(data)@ == old(data)@ + u16_le(
                tag.spec_code(),
            ),
            r matches Ok(start) ==> start == old(data)@.len() + 2 && final(data)@ == old(data)@
                + u16_le(tag.spec_code()) + u16_le(len as u16),
    {
        append_u16(data, tag.code());
        let start = data.len();
        if len > 0xffff {
            return Err(Error::InvalidData);
        }
        append_u16(data, len as u16);
        Ok(start)
    }

    /// Records the item that has been appended from `start` on, and writes
    /// the number of items into the header.
    fn close_item(&mut self, tag: Tag, start: usize) -> (r: Result<(), Error>)
        requires
            24 <= start <= old(self).bytes().len(),
            items_within(old(self).items(), old(self).bytes().len()),
        ensures
            final(self).wf(),
            final(self).items() == old(self).items().push(
                (tag.spec_code(), start, old(self).bytes().len() as usize),
            ),
            r == (if old(self).items().len() + 1 > u32::MAX {
                Err::<(), Error>(Error::InvalidData)
            } else {
                Ok::<(), Error>(())
            }),
            r is Err ==> final(self).bytes() == old(self).bytes(),
            r is Ok ==> final(self).bytes() == patched(
                old(self).bytes(),
                20,
                u32_le((old(self).items().len() + 1) as u32),
            ),
    {
        self.items.push((tag.code(), start, self.data.len()));
        let count = self.items.len();
        if count > 0xffff_ffff {
            return Err(Error::InvalidData);
        }
        put_u32_at(&mut self.data, 20, count as u32);
        Ok(())
    }

    /// Add a tag containing arbitrary bytes.
    ///
    /// The item is recorded from its length field on, so that
    /// [`Message::get_bytes`] on this message gives the two bytes of the
    /// length and then the data; a message parsed from the packet gives the
    /// data alone.  Fails with `InvalidData` if the data is longer than 16
    /// bits can say; the tag has then been appended all the same.
    pub fn add_bytes(&mut self, tag: Tag, data: &[u8]) -> (r: Result<(), Error>)
        requires
            old(self).wf(),
        ensures
            final(self).wf(),
            r == added_result(old(self).items().len(), data@.len()),
            final(self).bytes() == added_bytes(old(self).bytes(), old(self).items().len(), tag, data@),
            final(self).items() == added_items(old(self).bytes(), old(self).items(), tag, data@),
    {
        proof {
            reveal(added_bytes);
        }
        let start = match Self::open_item(&mut self.data, tag, data.len()) {
            Ok(start) => start,
            Err(e) => {
                return Err(e);
            },
        };
        self.data.extend_from_slice(data);
        self.close_item(tag, start)
    }

    /// Add a tag containing a string with null terminator.
    ///
    /// The item is recorded as by [`Message::add_bytes`].  Fails with
    /// `InvalidData` if the string with its terminator is longer than 16
    /// bits can say; the tag has then been appended all the same.
    pub fn add_str(&mut self, tag: Tag, data: &str) -> (r: Result<(), Error>)
        requires
            old(self).wf(),
        ensures
            final(self).wf(),
            r == added_result(old(self).items().len(), data.spec_bytes().len() + 1),
            final(self).bytes() == added_bytes(
                old(self).bytes(),
                old(self).items().len(),
                tag,
                data.spec_bytes().push(0u8),
            ),
            final(self).items() == added_items(
                old(self).bytes(),
                old(self).items(),
                tag,
                data.spec_bytes().push(0u8),
            ),
    {
        proof {
            reveal(added_bytes);
        }
        let text = data.as_bytes();
        // add the null terminator
        let len = match text.len().checked_add(1) {
            Some(n) => n,
            None => usize::MAX,
        };
        let start = match Self::open_item(&mut self.data, tag, len) {
            Ok(start) => start,
            Err(e) => {
                return Err(e);
            },
        };
        let ghost opened = self.data@;
        self.data.extend_from_slice(text);
        self.data.push(0);
        assert(self.data@ =~= opened + data.spec_bytes().push(0u8));
        self.close_item(tag, start)
    }

    /// Add a tag containing an u32.
    ///
    /// The item is recorded as by [`Message::add_bytes`].
    pub fn add_u32(&mut self, tag: Tag, data: u32) -> (r: Result<(), Error>)
        requires
            old(self).wf(),
        ensures
            final(self).wf(),
            r == added_result(old(self).items().len(), 4),
            final(self).bytes() == added_bytes(
                old(self).bytes(),
                old(self).items().len(),
                tag,
                u32_le(data),
            ),
            final(self).items() == added_items(old(self).bytes(), old(self).items(), tag, u32_le(data)),
    {
        proof {
            reveal(added_bytes);
        }
        let start = match Self::open_item(&mut self.data, tag, 4) {
            Ok(start) => start,
            Err(e) => {
                return Err(e);
            },
        };
        append_u32(&mut self.data, data);
        self.close_item(tag, start)
    }

    /// Where the first item with the tag `tag` lies in the packet.
    fn find(&self, tag: Tag) -> (r: Option<(usize, usize)>)
        requires
            self.wf(),
        ensures
            match find_item(self.items(), tag.spec_code(), 0) {
                Some(item) => r == Some((item.1, item.2)) && item.1 <= item.2 <= self.bytes().len(),
                None => r is None,
            },
    {
        let code = tag.code();
        let mut i: usize = 0;
        while i < self.items.len()
            invariant
                i <= self.items@.len(),
                code == tag.spec_code(),
                items_within(self.items@, self.data@.len()),
                find_item(self.items@, code, 0) == find_item(self.items@, code, i as int),
            decreases self.items@.len() - i,
        {
            if self.items[i].0 == code {
                return Some((self.items[i].1, self.items[i].2));
            }
            i += 1;
        }
        None
    }

    /// Applies `map` to the data of the first item with the tag `tag`;
    /// `None` if there is no such item.
    pub fn map_tag<'a, O, F>(&'a self, tag: Tag, map: F) -> (r: Option<O>) where
        F: Fn(&'a [u8]) -> Option<O>,

        requires
            self.wf(),
            forall|b: &'a [u8]| call_requires(map, (b,)),
        ensures
            match self.item_data(tag.spec_code()) {
                Some(d) => exists|b: &'a [u8]| b@ == d && call_ensures(map, (b,), r),
                None => r is None,
            },
    {
        match self.find(tag) {
            Some((i, j)) => {
                let b = &self.data.as_slice()[i..j];
                map(b)
            },
            None => None,
        }
    }

    /// Get the data for given tag as bytes.
    pub fn get_bytes(&self, tag: Tag) -> (r: Option<&[u8]>)
        requires
            self.wf(),
        ensures
            match self.item_data(tag.spec_code()) {
                Some(d) => r matches Some(b) && b@ == d,
                None => r is None,
            },
    {
        self.map_tag(tag, whole)
    }

    /// Get the data for given tag as null-terminated string: the data
    /// without its last byte, if that is valid UTF-8.  `None` also for an
    /// item without data.
    pub fn get_str(&self, tag: Tag) -> (r: Option<&str>)
        requires
            self.wf(),
        ensures
            match self.item_data(tag.spec_code()) {
                Some(d) => if d.len() > 0 && vstd::utf8::valid_utf8(d.drop_last()) {
                    r matches Some(s) && s.spec_bytes() == d.drop_last()
                } else {
                    r is None
                },
                None => r is None,
            },
    {
        self.map_tag(tag, terminated)
    }

    /// Get the data for given tag as a u32: the little-endian integer that
    /// the data starts with.  `None` also for an item of less than four
    /// bytes.
    pub fn get_u32(&self, tag: Tag) -> (r: Option<u32>)
        requires
            self.wf(),
        ensures
            r == (match self.item_data(tag.spec_code()) {
                Some(d) => if d.len() >= 4 {
                    Some(le_u32(d))
                } else {
                    None::<u32>
                },
                None => None::<u32>,
            }),
    {
        self.map_tag(tag, leading_u32)
    }

    /// Get the AMS address originating the message.
    pub fn get_source(&self) -> (r: AmsAddr)
        requires
            self.wf(),
        ensures
            r.wire() == self.bytes().subrange(12, 20),
    {
        let field = &self.data.as_slice()[12..20];
        match AmsAddr::read_from(field) {
            Some(addr) => {
                assert(field@.subrange(0, 8) =~= field@);
                addr
            },
            // The field has eight bytes, so there is always an address.
            None => AmsAddr::new(AmsNetId::new(0, 0, 0, 0, 0, 0), 0),
        }
    }

    /// Create a complete UDP packet from the message and its header.
    pub fn as_bytes(&self) -> (r: &[u8])
        ensures
            r@ == self.bytes(),
    {
        self.data.as_slice()
    }

    /// The service field that a reply to this message carries.
    pub fn reply_service(&self) -> (r: u32)
        requires
            self.wf(),
        ensures
            r == service_field(le_u32(self.bytes().subrange(8, 12)), true),
    {
        let service = get_u32(self.data.as_slice(), 8);
        if service < REPLY_BIT {
            service + REPLY_BIT
        } else {
            service
        }
    }

    /// Parse the packet `reply` as the reply to this message.
    pub fn parse_reply(&self, reply: &[u8]) -> (r: Result<Self, Error>)
        requires
            self.wf(),
        ensures
            match parse_fault(reply@, service_field(le_u32(self.bytes().subrange(8, 12)), true)) {
                Some(e) => r matches Err(f) && f == e,
                None => r matches Ok(m) && m.wf() && m.bytes() == reply@ && m.items() == items_from(
                    reply@,
                    24,
                )->0,
            },
    {
        Self::parse_internal(reply, self.reply_service())
    }
}

/// The data of an item, whole.
fn whole<'a>(b: &'a [u8]) -> (r: Option<&'a [u8]>)
    ensures
        r == Some(b),
{
    Some(b)
}

/// The string in front of the terminator that ends the data of an item.
fn terminated<'a>(b: &'a [u8]) -> (r: Option<&'a str>)
    ensures
        b@.len() > 0 && vstd::utf8::valid_utf8(b@.drop_last()) <==> r is Some,
        r matches Some(s) ==> s.spec_bytes() == b@.drop_last(),
{
    if b.len() == 0 {
        return None;
    }
    // exclude the null terminator
    let text = &b[0..b.len() - 1];
    assert(text@ =~= b@.drop_last());
    str_from_utf8(text)
}

/// The integer that the data of an item starts with.
fn leading_u32<'a>(b: &'a [u8]) -> (r: Option<u32>)
    ensures
        r == (if b@.len() >= 4 {
            Some(le_u32(b@))
        } else {
            None::<u32>
        }),
{
    if b.len() < 4 {
        return None;
    }
    assert(le_u32(b@.subrange(0, 4)) == le_u32(b@));
    Some(get_u32(b, 0))
}

/// Overwrites the four bytes of `data` at `at` with the little-endian
/// encoding of `n`.
fn put_u32_at(data: &mut Vec<u8>, at: usize, n: u32)
    requires
        at + 4 <= old(data)@.len(),
    ensures
        final(data)@ == patched(old(data)@, at as int, u32_le(n)),
{
    let (_, tail) = data.as_mut_slice().split_at_mut(at);
    write_u32(tail, n);
    assert(data@ =~= patched(old(data)@, at as int, u32_le(n)));
}

/// The result of adding an item of `len` bytes to a message of `count`
/// items.
pub open spec fn added_result(count: nat, len: nat) -> Result<(), Error> {
    if len > u16::MAX || count + 1 > u32::MAX {
        Err(Error::InvalidData)
    } else {
        Ok(())
    }
}

/// The packet `s` of `count` items after an item with `tag` and `data` has
/// been added: tag, length and data are appended, and the header gets the
/// new number of items.  Data longer than 16 bits can say is refused when
/// the tag has been appended; an item beyond the number that 32 bits can say
/// is appended, but not counted.
#[verifier::opaque]
pub open spec fn added_bytes(s: Seq<u8>, count: nat, tag: Tag, data: Seq<u8>) -> Seq<u8> {
    if data.len() > u16::MAX {
        s + u16_le(tag.spec_code())
    } else {
        let appended = s + u16_le(tag.spec_code()) + u16_le(data.len() as u16) + data;
        if count + 1 > u32::MAX {
            appended
        } else {
            patched(appended, 20, u32_le((count + 1) as u32))
        }
    }
}

/// The items of a message with the packet `s` after an item with `tag` and
/// `data` has been added: the new item is recorded from its length field on.
pub open spec fn added_items(s: Seq<u8>, items: Seq<Item>, tag: Tag, data: Seq<u8>) -> Seq<Item> {
    if data.len() > u16::MAX {
        items
    } else {
        items.push((tag.spec_code(), (s.len() + 2) as usize, (s.len() + 4 + data.len()) as usize))
    }
}

/// The packet `s` holds the items `items`, and nothing else behind its
/// header.
pub open spec fn holds(s: Seq<u8>, items: Seq<(u16, Seq<u8>)>) -> bool {
    s.len() >= 24 && s.subrange(24, s.len() as int) == wire_items(items, items.len() as int)
}

/// The first `k` of `items` on the wire: for each its tag, its length and
/// its data.
pub open spec fn wire_items(items: Seq<(u16, Seq<u8>)>, k: int) -> Seq<u8>
    decreases k,
{
    if k <= 0 {
        Seq::empty()
    } else {
        wire_items(items, k - 1) + u16_le(items[k - 1].0) + u16_le(items[k - 1].1.len() as u16)
            + items[k - 1].1
    }
}

/// The data of the first of `items` with the tag `tag`, from index `i` on.
pub open spec fn first_with(items: Seq<(u16, Seq<u8>)>, tag: u16, i: int) -> Option<Seq<u8>>
    decreases items.len() - i,
{
    if i < 0 || i >= items.len() {
        None
    } else if items[i].0 == tag {
        Some(items[i].1)
    } else {
        first_with(items, tag, i + 1)
    }
}

/// Where item `k` of a packet that holds `items` lies: behind the items
/// before it, with its tag, its length and its data.
pub proof fn lemma_item_at(s: Seq<u8>, items: Seq<(u16, Seq<u8>)>, k: int)
    requires
        holds(s, items),
        0 <= k < items.len(),
    ensures
        ({
            let pos = 24 + wire_items(items, k).len() as int;
            let d = items[k].1;
            &&& wire_items(items, k + 1).len() == wire_items(items, k).len() + 4 + d.len()
            &&& pos + 4 + d.len() <= s.len()
            &&& s.subrange(pos, pos + 2) == u16_le(items[k].0)
            &&& s.subrange(pos + 2, pos + 4) == u16_le(d.len() as u16)
            &&& s.subrange(pos + 4, pos + 4 + d.len()) == d
        }),
{
    let pos = 24 + wire_items(items, k).len() as int;
    let all = wire_items(items, items.len() as int);
    let (t, d) = items[k];
    lemma_wire_items_prefix(items, k + 1, items.len() as int);
    let next = wire_items(items, k + 1);
    assert(next == wire_items(items, k) + u16_le(t) + u16_le(d.len() as u16) + d);
    let p = pos - 24;
    let tail = s.subrange(24, s.len() as int);
    let head = all.subrange(0, next.len() as int);
    assert(s.subrange(pos, pos + 2) =~= tail.subrange(p, p + 2));
    assert(all.subrange(p, p + 2) =~= head.subrange(p, p + 2));
    assert(next.subrange(p, p + 2) =~= u16_le(t));
    assert(s.subrange(pos + 2, pos + 4) =~= tail.subrange(p + 2, p + 4));
    assert(all.subrange(p + 2, p + 4) =~= head.subrange(p + 2, p + 4));
    assert(next.subrange(p + 2, p + 4) =~= u16_le(d.len() as u16));
    assert(s.subrange(pos + 4, pos + 4 + d.len()) =~= tail.subrange(p + 4, p + 4 + d.len()));
    assert(all.subrange(p + 4, p + 4 + d.len()) =~= head.subrange(p + 4, p + 4 + d.len()));
    assert(next.subrange(p + 4, p + 4 + d.len()) =~= d);
}

/// A parser that starts at the item `k` of a packet that holds `items`
/// finds the items from `k` on, each with the range of its data; and the
/// first of them with a given tag is the first of `items` from `k` on with
/// that tag.
pub proof fn lemma_parse_items(s: Seq<u8>, items: Seq<(u16, Seq<u8>)>, k: int, tag: u16)
    requires
        holds(s, items),
        s.len() <= usize::MAX,
        0 <= k <= items.len(),
        forall|i: int| 0 <= i < items.len() ==> (#[trigger] items[i]).1.len() <= u16::MAX,
    ensures
        items_from(s, 24 + wire_items(items, k).len() as int) matches Some(found) && {
            &&& found.len() == items.len() - k
            &&& match find_item(found, tag, 0) {
                Some(item) => first_with(items, tag, k) == Some(s.subrange(item.1 as int, item.2 as int))
                    && item.1 <= item.2 <= s.len(),
                None => first_with(items, tag, k) is None,
            }
        },
    decreases items.len() - k,
{
    let pos = 24 + wire_items(items, k).len() as int;
    if k == items.len() {
        assert(pos == s.len());
    } else {
        let (t, d) = items[k];
        lemma_item_at(s, items, k);
        crate::bytes::lemma_u16_roundtrip(t);
        crate::bytes::lemma_u16_roundtrip(d.len() as u16);
        lemma_parse_items(s, items, k + 1, tag);
        let rest = items_from(s, pos + 4 + d.len())->0;
        let item = (t, (pos + 4) as usize, (pos + 4 + d.len()) as usize);
        let found = seq![item] + rest;
        assert(items_from(s, pos) == Some(found));
        assert(found[0] == item);
        lemma_find_item_shift(found, rest, tag, 0);
    }
}

/// Looking for a tag in a list from the index `i + 1` on is looking in the
/// list without its first entry from `i` on.
pub proof fn lemma_find_item_shift(found: Seq<Item>, rest: Seq<Item>, tag: u16, i: int)
    requires
        found.len() == rest.len() + 1,
        forall|j: int| 0 <= j < rest.len() ==> found[j + 1] == rest[j],
        0 <= i <= rest.len(),
    ensures
        find_item(found, tag, i + 1) == find_item(rest, tag, i),
    decreases rest.len() - i,
{
    if i < rest.len() {
        assert(found[i + 1] == rest[i]);
        lemma_find_item_shift(found, rest, tag, i + 1);
    }
}

/// The first `k` items on the wire are the start of the first `m`, `k <= m`.
pub proof fn lemma_wire_items_prefix(items: Seq<(u16, Seq<u8>)>, k: int, m: int)
    requires
        0 <= k <= m <= items.len(),
    ensures
        wire_items(items, k).len() <= wire_items(items, m).len(),
        wire_items(items, m).subrange(0, wire_items(items, k).len() as int) == wire_items(items, k),
    decreases m - k,
{
    if k < m {
        lemma_wire_items_prefix(items, k, m - 1);
        let a = wire_items(items, m - 1);
        let b = wire_items(items, m);
        assert(b.subrange(0, wire_items(items, k).len() as int) =~= a.subrange(
            0,
            wire_items(items, k).len() as int,
        ));
    } else {
        assert(wire_items(items, m).subrange(0, wire_items(items, k).len() as int) =~= wire_items(
            items,
            k,
        ));
    }
}

/// Round trip: a packet that holds items is accepted by the parser for its
/// service, and the parsed message gives for each tag the data of the first
/// item with that tag.
pub proof fn lemma_roundtrip(s: Seq<u8>, service: u32, items: Seq<(u16, Seq<u8>)>, tag: u16)
    requires
        holds(s, items),
        s.len() <= usize::MAX,
        s.subrange(0, 4) == u32_le(BECKHOFF_UDP_MAGIC),
        s.subrange(4, 8) == u32_le(0),
        s.subrange(8, 12) == u32_le(service),
        forall|i: int| 0 <= i < items.len() ==> (#[trigger] items[i]).1.len() <= u16::MAX,
    ensures
        parse_fault(s, service) is None,
        items_from(s, 24) matches Some(found) && match find_item(found, tag, 0) {
            Some(item) => first_with(items, tag, 0) == Some(s.subrange(item.1 as int, item.2 as int)),
            None => first_with(items, tag, 0) is None,
        },
{
    crate::bytes::lemma_u32_roundtrip(BECKHOFF_UDP_MAGIC);
    crate::bytes::lemma_u32_roundtrip(0);
    crate::bytes::lemma_u32_roundtrip(service);
    lemma_parse_items(s, items, 0, tag);
}

/// Adding an item to a packet that holds items gives a packet that holds
/// them and the new item.
pub proof fn lemma_added_holds(s: Seq<u8>, count: nat, items: Seq<(u16, Seq<u8>)>, tag: Tag, data: Seq<u8>)
    requires
        holds(s, items),
        data.len() <= u16::MAX,
    ensures
        holds(added_bytes(s, count, tag, data), items.push((tag.spec_code(), data))),
        added_bytes(s, count, tag, data).subrange(0, 20) == s.subrange(0, 20),
{
    reveal(added_bytes);
    let t = added_bytes(s, count, tag, data);
    let more = items.push((tag.spec_code(), data));
    lemma_wire_items_agree(items, more, items.len() as int);
    assert(t.subrange(24, t.len() as int) =~= wire_items(more, more.len() as int));
    assert(t.subrange(0, 20) =~= s.subrange(0, 20));
}

/// The first `k` items on the wire depend on the first `k` items alone.
pub proof fn lemma_wire_items_agree(a: Seq<(u16, Seq<u8>)>, b: Seq<(u16, Seq<u8>)>, k: int)
    requires
        0 <= k <= a.len(),
        k <= b.len(),
        forall|i: int| 0 <= i < k ==> a[i] == b[i],
    ensures
        wire_items(a, k) == wire_items(b, k),
    decreases k,
{
    if k > 0 {
        lemma_wire_items_agree(a, b, k - 1);
    }
}

/// The request to identify a system: its NetID, and the versions of
/// TwinCAT and the operating system.
pub fn identify_request() -> (r: Message)
    ensures
        r.wf(),
        r.items() == Seq::<Item>::empty(),
        r.bytes() == udp_header(ServiceId::Identify.spec_code(), Seq::new(8, |i: int| 0u8), 0),
{
    let source = AmsAddr::new(AmsNetId::new(0, 0, 0, 0, 0, 0), 0);
    assert(source.wire() =~= Seq::new(8, |i: int| 0u8));
    Message::new(ServiceId::Identify, source)
}

/// A parser that starts at the item `k` of a packet that holds `items`
/// finds one item for each of `items` from `k` on, in their order: each with
/// the tag of its item and with the range of its data.
pub proof fn lemma_parse_each(s: Seq<u8>, items: Seq<(u16, Seq<u8>)>, k: int)
    requires
        holds(s, items),
        s.len() <= usize::MAX,
        0 <= k <= items.len(),
        forall|i: int| 0 <= i < items.len() ==> (#[trigger] items[i]).1.len() <= u16::MAX,
    ensures
        items_from(s, 24 + wire_items(items, k).len() as int) matches Some(found) && {
            &&& found.len() == items.len() - k
            &&& forall|j: int|
                0 <= j < found.len() ==> {
                    &&& (#[trigger] found[j]).0 == items[k + j].0
                    &&& found[j].1 <= found[j].2 <= s.len()
                    &&& s.subrange(found[j].1 as int, found[j].2 as int) == items[k + j].1
                }
        },
    decreases items.len() - k,
{
    let pos = 24 + wire_items(items, k).len() as int;
    if k == items.len() {
        lemma_wire_items_prefix(items, k, items.len() as int);
        assert(pos == s.len());
    } else {
        let (t, d) = items[k];
        lemma_item_at(s, items, k);
        crate::bytes::lemma_u16_roundtrip(t);
        crate::bytes::lemma_u16_roundtrip(d.len() as u16);
        lemma_parse_each(s, items, k + 1);
        let rest = items_from(s, pos + 4 + d.len())->0;
        let item = (t, (pos + 4) as usize, (pos + 4 + d.len()) as usize);
        let found = seq![item] + rest;
        assert(items_from(s, pos) == Some(found));
        assert forall|j: int| 0 <= j < found.len() implies {
            &&& (#[trigger] found[j]).0 == items[k + j].0
            &&& found[j].1 <= found[j].2 <= s.len()
            &&& s.subrange(found[j].1 as int, found[j].2 as int) == items[k + j].1
        } by {
            if j > 0 {
                assert(found[j] == rest[j - 1]);
                assert(items[(k + 1) + (j - 1)] == items[k + j]);
            }
        }
    }
}

/// The packet `s0` after the first `k` of `adds` have been added to it, one
/// after the other, each as an item with its tag and its data.
pub open spec fn built(s0: Seq<u8>, adds: Seq<(Tag, Seq<u8>)>, k: int) -> Seq<u8>
    decreases k,
{
    if k <= 0 {
        s0
    } else {
        added_bytes(built(s0, adds, k - 1), (k - 1) as nat, adds[k - 1].0, adds[k - 1].1)
    }
}

/// The items `adds` with the numbers of their tags.
pub open spec fn coded(adds: Seq<(Tag, Seq<u8>)>) -> Seq<(u16, Seq<u8>)> {
    Seq::new(adds.len(), |i: int| (adds[i].0.spec_code(), adds[i].1))
}

/// A header to which items have been added holds those items, and is still
/// the same in its first twenty bytes.
pub proof fn lemma_built_holds(s0: Seq<u8>, adds: Seq<(Tag, Seq<u8>)>, k: int)
    requires
        s0.len() == 24,
        0 <= k <= adds.len(),
        forall|i: int| 0 <= i < adds.len() ==> (#[trigger] adds[i]).1.len() <= u16::MAX,
    ensures
        holds(built(s0, adds, k), coded(adds).subrange(0, k)),
        built(s0, adds, k).subrange(0, 20) == s0.subrange(0, 20),
    decreases k,
{
    if k == 0 {
        let none = coded(adds).subrange(0, 0);
        assert(s0.subrange(24, s0.len() as int) =~= wire_items(none, 0));
    } else {
        lemma_built_holds(s0, adds, k - 1);
        let before = built(s0, adds, k - 1);
        let items = coded(adds).subrange(0, k - 1);
        lemma_added_holds(before, (k - 1) as nat, items, adds[k - 1].0, adds[k - 1].1);
        assert(items.push((adds[k - 1].0.spec_code(), adds[k - 1].1)) =~= coded(adds).subrange(0, k));
    }
}

/// Round trip of a message: the packet of a message that was made new and
/// to which any number of items were added, each with success, is accepted
/// by the parser for the message's service and refused by the parser for
/// replies to it.  The parsed message holds one item for each item added, in
/// the order in which they were added, each with its tag and its data; and
/// the address in the packet is that of the message's source alone.
pub proof fn lemma_build_parse(m: Message, service: ServiceId, source: AmsAddr, adds: Seq<(Tag, Seq<u8>)>)
    requires
        m.bytes() == built(udp_header(service.spec_code(), source.wire(), 0), adds, adds.len() as int),
        adds.len() <= u32::MAX,
        forall|i: int| 0 <= i < adds.len() ==> (#[trigger] adds[i]).1.len() <= u16::MAX,
    ensures
        forall|i: int|
            0 <= i < adds.len() ==> added_result(i as nat, (#[trigger] adds[i]).1.len()) is Ok,
        parse_fault(m.bytes(), service_field(service.spec_code(), false)) is None,
        parse_fault(m.bytes(), service_field(service.spec_code(), true)) == Some(
            Error::Io(IoError::InvalidService),
        ),
        m.bytes().subrange(12, 20) == source.wire(),
        forall|a: AmsAddr| a.wire() == m.bytes().subrange(12, 20) ==> a == source,
        items_from(m.bytes(), 24) matches Some(found) && {
            &&& found.len() == adds.len()
            &&& forall|j: int|
                0 <= j < found.len() ==> {
                    &&& (#[trigger] found[j]).0 == adds[j].0.spec_code()
                    &&& m.bytes().subrange(found[j].1 as int, found[j].2 as int) == adds[j].1
                }
        },
{
    let s0 = udp_header(service.spec_code(), source.wire(), 0);
    let s = m.bytes();
    let items = coded(adds);
    lemma_built_holds(s0, adds, adds.len() as int);
    assert(items.subrange(0, adds.len() as int) =~= items);
    let h = s0.subrange(0, 20);
    assert(s.subrange(0, 4) =~= h.subrange(0, 4));
    assert(s.subrange(4, 8) =~= h.subrange(4, 8));
    assert(s.subrange(8, 12) =~= h.subrange(8, 12));
    assert(s.subrange(12, 20) =~= h.subrange(12, 20));
    assert(h.subrange(0, 4) =~= u32_le(BECKHOFF_UDP_MAGIC));
    assert(h.subrange(4, 8) =~= u32_le(0));
    assert(h.subrange(8, 12) =~= u32_le(service.spec_code()));
    assert(h.subrange(12, 20) =~= source.wire());
    crate::bytes::lemma_u32_roundtrip(BECKHOFF_UDP_MAGIC);
    crate::bytes::lemma_u32_roundtrip(0);
    crate::bytes::lemma_u32_roundtrip(service.spec_code());
    assert(s.len() <= usize::MAX) by {
        assert(m.data@.len() == m.data.len());
    }
    lemma_parse_each(s, items, 0);
    assert forall|a: AmsAddr| a.wire() == s.subrange(12, 20) implies a == source by {
        a.lemma_wire_injective(source);
    }
}

/// Tags with the same number are the same tag.
pub proof fn lemma_tag_code(a: Tag, b: Tag)
    ensures
        a.spec_code() == b.spec_code() <==> a == b,
{
}

/// The step of [`lemma_three_tags_roundtrip`] that looks the tags up.
proof fn lemma_three_found(s: Seq<u8>, service: u32, c1: u16, a: Seq<u8>, c2: u16, b: Seq<u8>, c3: u16, c: Seq<u8>)
    requires
        holds(s, seq![(c1, a), (c2, b), (c3, c)]),
        s.len() <= usize::MAX,
        s.subrange(0, 4) == u32_le(BECKHOFF_UDP_MAGIC),
        s.subrange(4, 8) == u32_le(0),
        s.subrange(8, 12) == u32_le(service),
        c1 != c2 && c1 != c3 && c2 != c3,
        a.len() <= u16::MAX && b.len() <= u16::MAX && c.len() <= u16::MAX,
    ensures
        parse_fault(s, service) is None,
        items_from(s, 24) matches Some(found) && {
            &&& find_item(found, c1, 0) matches Some(i1) && s.subrange(i1.1 as int, i1.2 as int) == a
            &&& find_item(found, c2, 0) matches Some(i2) && s.subrange(i2.1 as int, i2.2 as int) == b
            &&& find_item(found, c3, 0) matches Some(i3) && s.subrange(i3.1 as int, i3.2 as int) == c
        },
{
    let items = seq![(c1, a), (c2, b), (c3, c)];
    assert(first_with(items, c1, 0) == Some(a));
    assert(first_with(items, c2, 0) == Some(b)) by {
        assert(first_with(items, c2, 1) == Some(b));
    }
    assert(first_with(items, c3, 0) == Some(c)) by {
        assert(first_with(items, c3, 2) == Some(c));
        assert(first_with(items, c3, 1) == Some(c));
    }
    lemma_roundtrip(s, service, items, c1);
    lemma_roundtrip(s, service, items, c2);
    lemma_roundtrip(s, service, items, c3);
}

/// Round trip of three items: the packet of a new message to which items
/// with three distinct tags have been added is accepted by the parser for
/// its service, and the parsed message gives for each tag the data that was
/// added with it.
pub proof fn lemma_three_tags_roundtrip(
    service: ServiceId,
    source: AmsAddr,
    t1: Tag,
    a: Seq<u8>,
    t2: Tag,
    b: Seq<u8>,
    t3: Tag,
    c: Seq<u8>,
)
    requires
        t1 != t2 && t1 != t3 && t2 != t3,
        a.len() <= u16::MAX && b.len() <= u16::MAX && c.len() <= u16::MAX,
    ensures
        ({
            let s0 = udp_header(service.spec_code(), source.wire(), 0);
            let s1 = added_bytes(s0, 0, t1, a);
            let s2 = added_bytes(s1, 1, t2, b);
            let s3 = added_bytes(s2, 2, t3, c);
            &&& parse_fault(s3, service.spec_code()) is None
            &&& items_from(s3, 24) matches Some(found) && {
                &&& find_item(found, t1.spec_code(), 0) matches Some(i1) && s3.subrange(
                    i1.1 as int,
                    i1.2 as int,
                ) == a
                &&& find_item(found, t2.spec_code(), 0) matches Some(i2) && s3.subrange(
                    i2.1 as int,
                    i2.2 as int,
                ) == b
                &&& find_item(found, t3.spec_code(), 0) matches Some(i3) && s3.subrange(
                    i3.1 as int,
                    i3.2 as int,
                ) == c
            }
        }),
{
    let s0 = udp_header(service.spec_code(), source.wire(), 0);
    let s1 = added_bytes(s0, 0, t1, a);
    let s2 = added_bytes(s1, 1, t2, b);
    let s3 = added_bytes(s2, 2, t3, c);
    let none = Seq::<(u16, Seq<u8>)>::empty();
    let l1 = none.push((t1.spec_code(), a));
    let l2 = l1.push((t2.spec_code(), b));
    let l3 = l2.push((t3.spec_code(), c));
    assert(holds(s0, none)) by {
        assert(s0.subrange(24, s0.len() as int) =~= wire_items(none, 0));
    }
    lemma_added_holds(s0, 0, none, t1, a);
    lemma_added_holds(s1, 1, l1, t2, b);
    lemma_added_holds(s2, 2, l2, t3, c);
    lemma_tag_code(t1, t2);
    lemma_tag_code(t1, t3);
    lemma_tag_code(t2, t3);
    assert(l3 =~= seq![(t1.spec_code(), a), (t2.spec_code(), b), (t3.spec_code(), c)]);
    let h = s0.subrange(0, 20);
    assert(s3.subrange(0, 20) == h);
    assert(s3.subrange(0, 4) =~= h.subrange(0, 4));
    assert(s3.subrange(4, 8) =~= h.subrange(4, 8));
    assert(s3.subrange(8, 12) =~= h.subrange(8, 12));
    assert(h.subrange(0, 4) =~= u32_le(BECKHOFF_UDP_MAGIC));
    assert(h.subrange(4, 8) =~= u32_le(0));
    assert(h.subrange(8, 12) =~= u32_le(service.spec_code()));
    lemma_added_len(s0, 0, t1, a);
    lemma_added_len(s1, 1, t2, b);
    lemma_added_len(s2, 2, t3, c);
    lemma_three_found(s3, service.spec_code(), t1.spec_code(), a, t2.spec_code(), b, t3.spec_code(), c);
}

/// The length of a packet to which an item has been added.
pub proof fn lemma_added_len(s: Seq<u8>, count: nat, tag: Tag, data: Seq<u8>)
    requires
        s.len() >= 24,
        data.len() <= u16::MAX,
    ensures
        added_bytes(s, count, tag, data).len() == s.len() + 4 + data.len(),
{
    reveal(added_bytes);
}

/// The name of the user that a route is added for, unless another is
/// given.
pub const DEFAULT_USER: &'static str = "Administrator";

/// The password that a route is added with, unless another is given.
pub const DEFAULT_PASSWORD: &'static str = "1";

/// The bytes of the string `s` and a zero byte.
pub open spec fn terminated_bytes(s: &str) -> Seq<u8> {
    s.spec_bytes().push(0u8)
}

/// The packet that asks a router to add a route to `netid`, given the
/// strings with their terminators.
pub open spec fn route_packet(
    netid: Seq<u8>,
    host: Seq<u8>,
    user: Seq<u8>,
    pass: Seq<u8>,
    name: Seq<u8>,
    temporary: bool,
) -> Seq<u8> {
    let s0 = udp_header(ServiceId::AddRoute.spec_code(), netid + u16_le(0), 0);
    let s1 = added_bytes(s0, 0, Tag::NetID, netid);
    let s2 = added_bytes(s1, 1, Tag::ComputerName, host);
    let s3 = added_bytes(s2, 2, Tag::UserName, user);
    let s4 = added_bytes(s3, 3, Tag::Password, pass);
    let s5 = added_bytes(s4, 4, Tag::RouteName, name);
    if temporary {
        added_bytes(s5, 5, Tag::Options, u32_le(1))
    } else {
        s5
    }
}

/// The string `s`, or `default` if there is none.
pub open spec fn or_default<'a>(s: Option<&'a str>, default: &'a str) -> &'a str {
    match s {
        Some(s) => s,
        None => default,
    }
}

/// The message that asks a router to add a route.
///
/// - `netid`: the NetID of the route's target
/// - `host`: the IP address or hostname of the route's target
/// - `routename`: name of the route, default is `host`
/// - `username`: system username for the router, default is `Administrator`
/// - `password`: system password for the given user, default is `1`
/// - `temporary`: marks the route as "temporary"
///
/// Fails with `InvalidData` exactly when one of the strings, with its
/// terminator, is longer than 16 bits can say.
pub fn add_route_request(
    netid: AmsNetId,
    host: &str,
    routename: Option<&str>,
    username: Option<&str>,
    password: Option<&str>,
    temporary: bool,
) -> (r: Result<Message, Error>)
    ensures
        r is Err <==> terminated_bytes(host).len() > u16::MAX || terminated_bytes(
            or_default(username, DEFAULT_USER),
        ).len() > u16::MAX || terminated_bytes(or_default(password, DEFAULT_PASSWORD)).len()
            > u16::MAX || terminated_bytes(or_default(routename, host)).len() > u16::MAX,
        r matches Err(e) ==> e == Error::InvalidData,
        r matches Ok(m) ==> m.wf() && m.bytes() == route_packet(
            netid.bytes(),
            terminated_bytes(host),
            terminated_bytes(or_default(username, DEFAULT_USER)),
            terminated_bytes(or_default(password, DEFAULT_PASSWORD)),
            terminated_bytes(or_default(routename, host)),
            temporary,
        ),
{
    let mut packet = Message::new(ServiceId::AddRoute, AmsAddr::new(netid, 0));
    match packet.add_bytes(Tag::NetID, netid.0.as_slice()) {
        Err(e) => {
            return Err(e);
        },
        Ok(()) => {},
    }
    match packet.add_str(Tag::ComputerName, host) {
        Err(e) => {
            return Err(e);
        },
        Ok(()) => {},
    }
    let user = match username {
        Some(s) => s,
        None => DEFAULT_USER,
    };
    match packet.add_str(Tag::UserName, user) {
        Err(e) => {
            return Err(e);
        },
        Ok(()) => {},
    }
    let pass = match password {
        Some(s) => s,
        None => DEFAULT_PASSWORD,
    };
    match packet.add_str(Tag::Password, pass) {
        Err(e) => {
            return Err(e);
        },
        Ok(()) => {},
    }
    let name = match routename {
        Some(s) => s,
        None => host,
    };
    match packet.add_str(Tag::RouteName, name) {
        Err(e) => {
            return Err(e);
        },
        Ok(()) => {},
    }
    if temporary {
        match packet.add_u32(Tag::Options, 1) {
            Err(e) => {
                return Err(e);
            },
            Ok(()) => {},
        }
    }
    Ok(packet)
}

/// What the reply to a request to add a route means: the status that the
/// router gives, zero for success.
pub fn add_route_reply(reply: &Message) -> (r: Result<(), Error>)
    requires
        reply.wf(),
    ensures
        r == (match reply.item_data(Tag::Status.spec_code()) {
            Some(d) => if d.len() < 4 {
                Err::<(), Error>(Error::Io(IoError::NoStatus))
            } else if le_u32(d) == 0 {
                Ok::<(), Error>(())
            } else {
                Err::<(), Error>(Error::Ads { action: "setting route", code: le_u32(d) })
            },
            None => Err::<(), Error>(Error::Io(IoError::NoStatus)),
        }),
{
    match reply.get_u32(Tag::Status) {
        None => Err(Error::Io(IoError::NoStatus)),
        Some(n) => {
            if n == 0 {
                Ok(())
            } else {
                Err(ads_error("setting route", n))
            }
        },
    }
}

/// Information about the system running TwinCAT.
#[derive(Debug)]
pub struct SysInfo {
    /// AMS NetID of the system.
    pub netid: AmsNetId,
    /// Hostname of the system.
    pub hostname: String,
    /// The TwinCAT (major, minor, build) version.
    pub twincat_version: (u8, u8, u16),
    /// The OS (name, major, minor, build, service_pack) version.
    pub os_version: (&'static str, u32, u32, u32, String),
    /// The system's fingerprint.
    pub fingerprint: String,
}

/// The TwinCAT version that the data `d` of a version item gives.
pub open spec fn twincat_version(d: Option<Seq<u8>>) -> (u8, u8, u16) {
    match d {
        Some(v) => if v.len() >= 4 {
            (v[0], v[1], le_u16(v.subrange(2, 4)))
        } else {
            (0u8, 0u8, 0u16)
        },
        None => (0u8, 0u8, 0u16),
    }
}

/// The name of the platform with the number `platform`.
pub open spec fn platform_name(platform: u32) -> &'static str {
    if platform == 1 {
        "TC/RTOS"
    } else if platform == 2 {
        "Windows NT"
    } else if platform == 3 {
        "Windows CE"
    } else {
        "Unknown platform"
    }
}

/// Whether `v` is the OS version that the data `d` of an OS version item
/// gives.  The data is a Windows OSVERSIONINFO structure: its size, the
/// major, minor and build versions and the platform, 32 bits each, and then
/// the service pack as a string, of bytes on TC/RTOS and of 16-bit units
/// elsewhere.
pub open spec fn is_os_version(d: Option<Seq<u8>>, v: (&'static str, u32, u32, u32, String)) -> bool {
    match d {
        Some(b) => if b.len() >= 22 {
            let platform = le_u32(b.subrange(16, 20));
            let pack = b.subrange(20, b.len() as int);
            &&& v.0 == platform_name(platform)
            &&& v.1 == le_u32(b.subrange(4, 8))
            &&& v.2 == le_u32(b.subrange(8, 12))
            &&& v.3 == le_u32(b.subrange(12, 16))
            &&& v.4@ == (if platform == 1 {
                name_text(pack)
            } else {
                crate::text::wide_text(pack, 0)
            })
        } else {
            v.0 == "Unknown OS info format" && v.1 == 0 && v.2 == 0 && v.3 == 0 && v.4@
                == Seq::<char>::empty()
        },
        None => v.0 == "No OS info" && v.1 == 0 && v.2 == 0 && v.3 == 0 && v.4@ == Seq::<
            char,
        >::empty(),
    }
}

/// Whether `text` is the string that the data `d` of an item gives, or
/// `default` where there is no item or its data is no string.
pub open spec fn is_item_text(d: Option<Seq<u8>>, default: Seq<char>, text: Seq<char>) -> bool {
    match d {
        Some(b) => if b.len() > 0 && vstd::utf8::valid_utf8(b.drop_last()) {
            vstd::utf8::encode_utf8(text) == b.drop_last()
        } else {
            text == default
        },
        None => text == default,
    }
}

/// What the reply to a request to identify a system says of the system.
pub fn sys_info(reply: &Message) -> (r: SysInfo)
    requires
        reply.wf(),
    ensures
        r.netid.bytes() == reply.bytes().subrange(12, 18),
        is_item_text(reply.item_data(Tag::ComputerName.spec_code()), "unknown"@, r.hostname@),
        r.twincat_version == twincat_version(reply.item_data(Tag::TCVersion.spec_code())),
        is_os_version(reply.item_data(Tag::OSVersion.spec_code()), r.os_version),
        is_item_text(reply.item_data(Tag::Fingerprint.spec_code()), ""@, r.fingerprint@),
{
    // Parse TwinCAT version.
    let twincat_version = match reply.get_bytes(Tag::TCVersion) {
        Some(tcver) => {
            if tcver.len() >= 4 {
                (tcver[0], tcver[1], get_u16(tcver, 2))
            } else {
                (0, 0, 0)
            }
        },
        None => (0, 0, 0),
    };

    // Parse OS version.  This is a Windows OSVERSIONINFO structure, which
    // consists of major/minor/build versions, the platform, and a "service
    // pack" string, coded as UTF-16.  It is not known how the data looks on
    // non-Windows devices, but hopefully the format is kept the same.
    let os_version = match reply.get_bytes(Tag::OSVersion) {
        Some(bytes) => {
            if bytes.len() >= 22 {
                // The first field is the size of the structure (redundant).
                let major = get_u32(bytes, 4);
                let minor = get_u32(bytes, 8);
                let build = get_u32(bytes, 12);
                let number = get_u32(bytes, 16);
                let platform = if number == 1 {
                    "TC/RTOS"
                } else if number == 2 {
                    "Windows NT"
                } else if number == 3 {
                    "Windows CE"
                } else {
                    "Unknown platform"
                };
                let pack = &bytes[20..bytes.len()];
                let string = if number == 1 {
                    name_string(pack)
                } else {
                    crate::text::wide_string(pack)
                };
                (platform, major, minor, build, string)
            } else {
                ("Unknown OS info format", 0, 0, 0, String::new())
            }
        },
        None => ("No OS info", 0, 0, 0, String::new()),
    };
    let netid = reply.get_source().netid();
    proof {
        reveal_strlit("");
        let w = reply.bytes().subrange(12, 20);
        assert(netid.bytes() =~= w.subrange(0, 6));
        assert(w.subrange(0, 6) =~= reply.bytes().subrange(12, 18));
        reply.lemma_wf();
    }
    let hostname = match reply.get_str(Tag::ComputerName) {
        Some(s) => s.to_owned(),
        None => "unknown".to_owned(),
    };
    let fingerprint = match reply.get_str(Tag::Fingerprint) {
        Some(s) => s.to_owned(),
        None => "".to_owned(),
    };
    SysInfo { netid, hostname, twincat_version, os_version, fingerprint }
}

} // verus!
