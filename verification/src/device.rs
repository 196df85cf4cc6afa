//! The operations on a device, each as the request to send and the meaning
//! of the reply.

use crate::bytes::{get_u32, le_u16, le_u32, views, views_mut};
use crate::client::{
    deal, dealt, dealt_at, first_len, read_outcome, reply_fault, reply_outcome, reply_payload,
    request_bytes, Client, Command, DeviceInfo, Request,
};
use crate::errors::{Error, IoError};
use crate::netid::AmsAddr;
use crate::notif::{Attributes, Handle};
use crate::state::{state_of, AdsState};
use crate::text::{name_string, name_text};
use crate::wire::{DeviceInfoRaw, IndexLength, IndexLengthRW, ReadState, WriteControl};
use vstd::prelude::*;

verus! {

/// How long a caller who waits for a device to run sleeps between two looks
/// at its state, in milliseconds.
pub const POLL_INTERVAL_MS: u64 = 100;

/// What a read returns where the returned data must have exactly the size
/// `size` of the buffer: the error of the read, or `ShortData` where the
/// read returned less.
pub open spec fn exact_outcome(read: Result<usize, Error>, size: nat) -> Result<(), Error> {
    match read {
        Err(e) => Err(e),
        Ok(len) => if len == size {
            Ok(())
        } else {
            Err(Error::Io(IoError::ShortData))
        },
    }
}

/// A device: the address of the device, and that of the client that talks to
/// it.
#[derive(Clone, Copy, Debug)]
pub struct Device {
    source: AmsAddr,
    addr: AmsAddr,
}

impl Device {
    /// The address of the client.
    pub closed spec fn spec_source(&self) -> AmsAddr {
        self.source
    }

    /// The address of the device.
    pub closed spec fn spec_addr(&self) -> AmsAddr {
        self.addr
    }

    /// The device at `addr`, for the client at `source`.
    pub fn new(source: AmsAddr, addr: AmsAddr) -> (r: Device)
        ensures
            r.spec_source() == source,
            r.spec_addr() == addr,
    {
        Device { source, addr }
    }

    /// The address of the client.
    #[verifier::when_used_as_spec(spec_source)]
    pub fn source(&self) -> (r: AmsAddr)
        ensures
            r == self.spec_source(),
    {
        self.source
    }

    /// The address of the device.
    #[verifier::when_used_as_spec(spec_addr)]
    pub fn addr(&self) -> (r: AmsAddr)
        ensures
            r == self.spec_addr(),
    {
        self.addr
    }

    /// Whether `q` is the request of this device for `cmd` under `invoke_id`
    /// with the payload `payload`.
    pub open spec fn is_request(&self, q: Request, cmd: Command, invoke_id: u32, payload: Seq<u8>) -> bool {
        &&& q.spec_cmd() == cmd
        &&& q.spec_target() == self.spec_addr()
        &&& q.spec_invoke_id() == invoke_id
        &&& q.spec_bytes() == request_bytes(self.spec_source(), self.spec_addr(), cmd, invoke_id, payload)
    }

    /// The request of this device for `cmd` under `invoke_id` whose payload
    /// is `head` followed by `data`.
    fn make(&self, invoke_id: u32, cmd: Command, head: &[u8], data: &[u8]) -> (r: Result<
        Request,
        Error,
    >)
        ensures
            r is Err <==> 32 + head@.len() + data@.len() > u32::MAX,
            r matches Err(e) ==> e == Error::InvalidData,
            r matches Ok(q) ==> self.is_request(q, cmd, invoke_id, head@ + data@),
    {
        let data_in: [&[u8]; 2] = [head, data];
        proof {
            crate::bytes::lemma_concat_two(views(data_in@));
        }
        Request::new(self.source, self.addr, cmd, invoke_id, data_in.as_slice())
    }

    /// The request to read `len` bytes at a given index group/offset.
    /// Fails with `InvalidData` exactly when `len` does not fit 32 bits.
    pub fn read_request(&self, invoke_id: u32, index_group: u32, index_offset: u32, len: usize) -> (r:
        Result<Request, Error>)
        ensures
            r is Err <==> len > u32::MAX,
            r matches Err(e) ==> e == Error::InvalidData,
            r matches Ok(q) ==> self.is_request(
                q,
                Command::Read,
                invoke_id,
                (IndexLength { index_group, index_offset, length: len as u32 }).bytes(),
            ),
    {
        if len > 0xffff_ffff {
            return Err(Error::InvalidData);
        }
        let header = IndexLength { index_group, index_offset, length: len as u32 };
        let head = header.to_bytes();
        let none: [u8; 0] = [];
        assert(head@ + none@ =~= head@);
        self.make(invoke_id, Command::Read, head.as_slice(), none.as_slice())
    }

    /// What the reply to a read means.  Returns the length that the device
    /// gives for the data, which can be shorter than the buffer; `data`
    /// receives the data, as far as it has room.  A length that is more
    /// than the buffer holds, or more than the data that the reply carries,
    /// is refused with `BufferOverflow`.  On an error the buffer is left as
    /// it was.
    pub fn read_reply(request: &Request, reply: &[u8], data: &mut [u8]) -> (r: Result<usize, Error>)
        ensures
            r == read_outcome(
                request.spec_cmd(),
                request.spec_target(),
                request.spec_invoke_id(),
                reply@,
                old(data)@.len(),
            ),
            r matches Ok(n) ==> n <= old(data)@.len(),
            final(data)@ == (if r is Ok {
                dealt_at(reply_payload(reply@), 4, old(data)@)
            } else {
                old(data)@
            }),
    {
        let n = match request.begin(reply, Some(4)) {
            Err(e) => {
                return Err(e);
            },
            Ok(n) => n,
        };
        let len = get_u32(reply, 42) as usize;
        if len > data.len() || len > n - 4 {
            return Err(Error::Io(IoError::BufferOverflow));
        }
        deal(&reply[42..42 + n], 4, data);
        Ok(len)
    }

    /// What the reply to a read means, where the returned data must have
    /// exactly the size of the buffer: a shorter length is refused with
    /// `ShortData`.
    pub fn read_exact_reply(request: &Request, reply: &[u8], data: &mut [u8]) -> (r: Result<(), Error>)
        ensures
            r == exact_outcome(
                read_outcome(
                    request.spec_cmd(),
                    request.spec_target(),
                    request.spec_invoke_id(),
                    reply@,
                    old(data)@.len(),
                ),
                old(data)@.len(),
            ),
            final(data)@ == (if read_outcome(
                request.spec_cmd(),
                request.spec_target(),
                request.spec_invoke_id(),
                reply@,
                old(data)@.len(),
            ) is Ok {
                dealt_at(reply_payload(reply@), 4, old(data)@)
            } else {
                old(data)@
            }),
    {
        let size = data.len();
        match Device::read_reply(request, reply, data) {
            Err(e) => Err(e),
            Ok(len) => {
                if len != size {
                    return Err(Error::Io(IoError::ShortData));
                }
                Ok(())
            },
        }
    }

    /// The request to write `data` to a given index group/offset.  Fails
    /// with `InvalidData` exactly when the frame would be longer than a
    /// 32-bit length can say.
    pub fn write_request(&self, invoke_id: u32, index_group: u32, index_offset: u32, data: &[u8]) -> (r:
        Result<Request, Error>)
        ensures
            r is Err <==> 32 + 12 + data@.len() > u32::MAX,
            r matches Err(e) ==> e == Error::InvalidData,
            r matches Ok(q) ==> self.is_request(
                q,
                Command::Write,
                invoke_id,
                (IndexLength { index_group, index_offset, length: data@.len() as u32 }).bytes() + data@,
            ),
    {
        if data.len() > 0xffff_ffff {
            return Err(Error::InvalidData);
        }
        let header = IndexLength { index_group, index_offset, length: data.len() as u32 };
        let head = header.to_bytes();
        self.make(invoke_id, Command::Write, head.as_slice(), data)
    }

    /// What the reply to a request without return data means: the fault of
    /// the reply, if it has one.
    pub fn done_reply(request: &Request, reply: &[u8]) -> (r: Result<(), Error>)
        ensures
            r == (match reply_fault(
                request.spec_cmd(),
                request.spec_target(),
                request.spec_invoke_id(),
                reply@,
            ) {
                Some(e) => Err::<(), Error>(e),
                None => Ok::<(), Error>(()),
            }),
    {
        let mut outs: [&mut [u8]; 0] = [];
        match request.complete(reply, &mut outs) {
            Err(e) => Err(e),
            Ok(_) => Ok(()),
        }
    }

    /// What the reply to a write means.
    pub fn write_reply(request: &Request, reply: &[u8]) -> (r: Result<(), Error>)
        ensures
            r == (match reply_fault(
                request.spec_cmd(),
                request.spec_target(),
                request.spec_invoke_id(),
                reply@,
            ) {
                Some(e) => Err::<(), Error>(e),
                None => Ok::<(), Error>(()),
            }),
    {
        Device::done_reply(request, reply)
    }

    /// The request to write `write_data` to a given index group/offset and
    /// then read back up to `read_len` bytes from there.  Fails with
    /// `InvalidData` exactly when a length does not fit its 32 bits.
    pub fn write_read_request(
        &self,
        invoke_id: u32,
        index_group: u32,
        index_offset: u32,
        write_data: &[u8],
        read_len: usize,
    ) -> (r: Result<Request, Error>)
        ensures
            r is Err <==> read_len > u32::MAX || 32 + 16 + write_data@.len() > u32::MAX,
            r matches Err(e) ==> e == Error::InvalidData,
            r matches Ok(q) ==> self.is_request(
                q,
                Command::ReadWrite,
                invoke_id,
                (IndexLengthRW {
                    index_group,
                    index_offset,
                    read_length: read_len as u32,
                    write_length: write_data@.len() as u32,
                }).bytes() + write_data@,
            ),
    {
        if read_len > 0xffff_ffff || write_data.len() > 0xffff_ffff {
            return Err(Error::InvalidData);
        }
        let header = IndexLengthRW {
            index_group,
            index_offset,
            read_length: read_len as u32,
            write_length: write_data.len() as u32,
        };
        let head = header.to_bytes();
        self.make(invoke_id, Command::ReadWrite, head.as_slice(), write_data)
    }

    /// What the reply to a write-and-read means: as for a read.
    pub fn write_read_reply(request: &Request, reply: &[u8], read_data: &mut [u8]) -> (r: Result<
        usize,
        Error,
    >)
        ensures
            r == read_outcome(
                request.spec_cmd(),
                request.spec_target(),
                request.spec_invoke_id(),
                reply@,
                old(read_data)@.len(),
            ),
            r matches Ok(n) ==> n <= old(read_data)@.len(),
            final(read_data)@ == (if r is Ok {
                dealt_at(reply_payload(reply@), 4, old(read_data)@)
            } else {
                old(read_data)@
            }),
    {
        Device::read_reply(request, reply, read_data)
    }

    /// What the reply to a write-and-read means, where the returned data
    /// must have exactly the size of the buffer.
    pub fn write_read_exact_reply(request: &Request, reply: &[u8], read_data: &mut [u8]) -> (r: Result<
        (),
        Error,
    >)
        ensures
            r == exact_outcome(
                read_outcome(
                    request.spec_cmd(),
                    request.spec_target(),
                    request.spec_invoke_id(),
                    reply@,
                    old(read_data)@.len(),
                ),
                old(read_data)@.len(),
            ),
            final(read_data)@ == (if read_outcome(
                request.spec_cmd(),
                request.spec_target(),
                request.spec_invoke_id(),
                reply@,
                old(read_data)@.len(),
            ) is Ok {
                dealt_at(reply_payload(reply@), 4, old(read_data)@)
            } else {
                old(read_data)@
            }),
    {
        Device::read_exact_reply(request, reply, read_data)
    }

    /// The request for the device's name and version.
    pub fn get_info_request(&self, invoke_id: u32) -> (r: Result<Request, Error>)
        ensures
            r matches Ok(q) && self.is_request(q, Command::DevInfo, invoke_id, Seq::<u8>::empty()),
    {
        let none: [u8; 0] = [];
        assert(none@ + none@ =~= Seq::<u8>::empty());
        self.make(invoke_id, Command::DevInfo, none.as_slice(), none.as_slice())
    }

    /// What the reply to a request for the device info means.  The name is
    /// the text of the 16-byte name field up to its first zero byte.
    pub fn get_info_reply(request: &Request, reply: &[u8]) -> (r: Result<DeviceInfo, Error>)
        ensures
            match reply_outcome(
                request.spec_cmd(),
                request.spec_target(),
                request.spec_invoke_id(),
                reply@,
                Some(20nat),
            ) {
                Err(e) => r matches Err(f) && f == e,
                Ok(n) => r matches Ok(info) && {
                    &&& info.major == reply@[42]
                    &&& info.minor == reply@[43]
                    &&& info.version == le_u16(reply@.subrange(44, 46))
                    &&& info.name@ == name_text(reply@.subrange(46, 62))
                },
            },
    {
        let mut data = [0u8; 20];
        let mut outs: [&mut [u8]; 1] = [&mut data];
        let ghost olds = views_mut(outs@);
        assert(first_len(olds) == Some(20nat));
        match request.complete(reply, &mut outs) {
            Err(e) => Err(e),
            Ok(_) => {
                assert(outs@[0]@ == dealt(reply_payload(reply@), olds, 0));
                assert(data@ =~= reply@.subrange(42, 62));
                let raw = DeviceInfoRaw::from_bytes(&data);
                // Decode the name string, which is null-terminated.  Technically it's
                // Windows-1252, but in practice no non-ASCII occurs.
                let name = name_string(raw.name.as_slice());
                assert(raw.name@ =~= reply@.subrange(46, 62));
                assert(data@.subrange(2, 4) =~= reply@.subrange(44, 46));
                Ok(DeviceInfo { major: raw.major, minor: raw.minor, version: raw.version, name })
            },
        }
    }

    /// The request for the ADS and device state of the device.
    pub fn get_state_request(&self, invoke_id: u32) -> (r: Result<Request, Error>)
        ensures
            r matches Ok(q) && self.is_request(q, Command::ReadState, invoke_id, Seq::<u8>::empty()),
    {
        let none: [u8; 0] = [];
        assert(none@ + none@ =~= Seq::<u8>::empty());
        self.make(invoke_id, Command::ReadState, none.as_slice(), none.as_slice())
    }

    /// What the reply to a request for the state means: the ADS state and
    /// the device state.  A number that stands for no ADS state gives
    /// `InvalidData`.
    pub fn get_state_reply(request: &Request, reply: &[u8]) -> (r: Result<(AdsState, u16), Error>)
        ensures
            r == (match reply_outcome(
                request.spec_cmd(),
                request.spec_target(),
                request.spec_invoke_id(),
                reply@,
                Some(4nat),
            ) {
                Err(e) => Err::<(AdsState, u16), Error>(e),
                Ok(n) => match state_of(le_u16(reply@.subrange(42, 44))) {
                    Some(s) => Ok::<(AdsState, u16), Error>((s, le_u16(reply@.subrange(44, 46)))),
                    None => Err::<(AdsState, u16), Error>(Error::InvalidData),
                },
            }),
    {
        let mut data = [0u8; 4];
        let mut outs: [&mut [u8]; 1] = [&mut data];
        let ghost olds = views_mut(outs@);
        assert(first_len(olds) == Some(4nat));
        match request.complete(reply, &mut outs) {
            Err(e) => Err(e),
            Ok(_) => {
                assert(outs@[0]@ == dealt(reply_payload(reply@), olds, 0));
                assert(data@ =~= reply@.subrange(42, 46));
                assert(data@.subrange(0, 2) =~= reply@.subrange(42, 44));
                assert(data@.subrange(2, 4) =~= reply@.subrange(44, 46));
                let state = ReadState::from_bytes(&data);
                // Convert ADS state to the enum type
                match AdsState::try_from(state.ads_state) {
                    Ok(ads_state) => Ok((ads_state, state.dev_state)),
                    Err(_) => Err(Error::InvalidData),
                }
            },
        }
    }

    /// The request to set the ADS and device state of the device.
    pub fn write_control_request(&self, invoke_id: u32, ads_state: AdsState, dev_state: u16) -> (r:
        Result<Request, Error>)
        ensures
            r matches Ok(q) && self.is_request(
                q,
                Command::WriteControl,
                invoke_id,
                (WriteControl { ads_state: ads_state.spec_code(), dev_state, data_length: 0 }).bytes(),
            ),
    {
        let data = WriteControl { ads_state: ads_state.code(), dev_state, data_length: 0 };
        let head = data.to_bytes();
        let none: [u8; 0] = [];
        assert(head@ + none@ =~= head@);
        self.make(invoke_id, Command::WriteControl, head.as_slice(), none.as_slice())
    }

    /// What the reply to a request to set the state means.
    pub fn write_control_reply(request: &Request, reply: &[u8]) -> (r: Result<(), Error>)
        ensures
            r == (match reply_fault(
                request.spec_cmd(),
                request.spec_target(),
                request.spec_invoke_id(),
                reply@,
            ) {
                Some(e) => Err::<(), Error>(e),
                None => Ok::<(), Error>(()),
            }),
    {
        Device::done_reply(request, reply)
    }

    /// What one look at the device's state means for a caller who waits for
    /// the device to run: `Some(true)` if it is in the Run state,
    /// `Some(false)` if not and the time is up, `None` if the caller is to
    /// sleep for [`POLL_INTERVAL_MS`] and look again.  `state` is `None`
    /// where the state could not be read.
    pub fn wait_running_step(state: Option<AdsState>, past_deadline: bool) -> (r: Option<bool>)
        ensures
            r == (if state == Some(AdsState::Run) {
                Some(true)
            } else if past_deadline {
                Some(false)
            } else {
                None::<bool>
            }),
    {
        match state {
            Some(s) => {
                if s == AdsState::Run {
                    return Some(true);
                }
            },
            None => {},
        }
        if past_deadline {
            return Some(false);
        }
        None
    }

    /// The request to add a notification handle for some index
    /// group/offset.  Fails with `InvalidData` exactly when the attributes
    /// cannot go on the wire.
    pub fn add_notification_request(
        &self,
        invoke_id: u32,
        index_group: u32,
        index_offset: u32,
        attributes: &Attributes,
    ) -> (r: Result<Request, Error>)
        ensures
            r is Err <==> !attributes.encodable(),
            r matches Err(e) ==> e == Error::InvalidData,
            r matches Ok(q) ==> self.is_request(
                q,
                Command::AddNotification,
                invoke_id,
                attributes.spec_order(index_group, index_offset).bytes(),
            ),
    {
        let data = match attributes.order(index_group, index_offset) {
            Ok(data) => data,
            Err(e) => {
                return Err(e);
            },
        };
        let head = data.to_bytes();
        let none: [u8; 0] = [];
        assert(head@ + none@ =~= head@);
        self.make(invoke_id, Command::AddNotification, head.as_slice(), none.as_slice())
    }

    /// What the reply to a request to add a notification means: the handle
    /// of the notification.  The client keeps the handle, with the address of
    /// this device, among its open notifications; on an error it keeps what
    /// it had.
    pub fn add_notification_reply(&self, client: &mut Client, request: &Request, reply: &[u8]) -> (r:
        Result<Handle, Error>)
        ensures
            final(client).spec_source() == old(client).spec_source(),
            match reply_outcome(
                request.spec_cmd(),
                request.spec_target(),
                request.spec_invoke_id(),
                reply@,
                Some(4nat),
            ) {
                Err(e) => r == Err::<Handle, Error>(e) && final(client).handles() == old(
                    client,
                ).handles(),
                Ok(n) => {
                    &&& r == Ok::<Handle, Error>(le_u32(reply@.subrange(42, 46)))
                    &&& final(client).handles() == old(client).handles().insert(
                        (self.spec_addr(), le_u32(reply@.subrange(42, 46))),
                    )
                },
            },
    {
        let mut handle = [0u8; 4];
        let mut outs: [&mut [u8]; 1] = [&mut handle];
        let ghost olds = views_mut(outs@);
        assert(first_len(olds) == Some(4nat));
        match request.complete(reply, &mut outs) {
            Err(e) => Err(e),
            Ok(_) => {
                assert(outs@[0]@ == dealt(reply_payload(reply@), olds, 0));
                assert(handle@ =~= reply@.subrange(42, 46));
                let handle = get_u32(handle.as_slice(), 0);
                client.track(self.addr, handle);
                Ok(handle)
            },
        }
    }

    /// The request to delete a notification with given handle.
    pub fn delete_notification_request(&self, invoke_id: u32, handle: Handle) -> (r: Result<
        Request,
        Error,
    >)
        ensures
            r matches Ok(q) && self.is_request(
                q,
                Command::DeleteNotification,
                invoke_id,
                crate::bytes::u32_le(handle),
            ),
    {
        let head = crate::bytes::u32_bytes(handle);
        let none: [u8; 0] = [];
        assert(head@ + none@ =~= head@);
        self.make(invoke_id, Command::DeleteNotification, head.as_slice(), none.as_slice())
    }

    /// What the reply to a request to delete the notification `handle`
    /// means.  On success the client strikes the handle from its open
    /// notifications; on an error it keeps what it had.
    pub fn delete_notification_reply(
        &self,
        client: &mut Client,
        request: &Request,
        reply: &[u8],
        handle: Handle,
    ) -> (r: Result<(), Error>)
        ensures
            final(client).spec_source() == old(client).spec_source(),
            match reply_fault(
                request.spec_cmd(),
                request.spec_target(),
                request.spec_invoke_id(),
                reply@,
            ) {
                Some(e) => r == Err::<(), Error>(e) && final(client).handles() == old(client).handles(),
                None => r == Ok::<(), Error>(()) && final(client).handles() == old(
                    client,
                ).handles().remove((self.spec_addr(), handle)),
            },
    {
        match Device::done_reply(request, reply) {
            Err(e) => Err(e),
            Ok(()) => {
                client.untrack(self.addr, handle);
                Ok(())
            },
        }
    }
}

} // verus!
