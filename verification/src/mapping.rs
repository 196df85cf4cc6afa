//! A symbol of a device, with its handle cached per session.
//!
//! A handle that the device gave for a symbol is good for one session.  The
//! mapping keeps the handle with the ID of the session it was acquired in,
//! and tells its caller to acquire a new one when the session has changed.

use crate::bytes::le_u32;
use crate::client::{dealt_at, read_outcome, reply_payload, Command, Request};
use crate::device::{exact_outcome, Device};
use crate::errors::Error;
use crate::index::{GET_SYMHANDLE_BYNAME, RW_SYMVAL_BYHANDLE};
use crate::wire::{IndexLength, IndexLengthRW};
use vstd::prelude::*;

verus! {

/// A handle of a symbol.
pub type Handle = u32;

/// A symbol of a device: its name, a buffer for its value, and the handle
/// that the device gave for it.
pub struct AdsMapping {
    device: Device,
    buf: Vec<u8>,
    symbol: String,
    session_id: usize,
    handle: Option<Handle>,
}

impl AdsMapping {
    /// The device of the symbol.
    pub closed spec fn device(&self) -> Device {
        self.device
    }

    /// The name of the symbol.
    pub closed spec fn symbol(&self) -> Seq<char> {
        self.symbol@
    }

    /// The content of the buffer.
    pub closed spec fn buffer(&self) -> Seq<u8> {
        self.buf@
    }

    /// The handle that is cached, with the ID of its session.
    pub closed spec fn cached(&self) -> Option<(usize, Handle)> {
        match self.handle {
            Some(h) => Some((self.session_id, h)),
            None => None,
        }
    }

    /// The handle that is good in the session `session_id`, if one is
    /// cached.
    pub open spec fn handle_in(&self, session_id: usize) -> Option<Handle> {
        match self.cached() {
            Some((s, h)) => if s == session_id {
                Some(h)
            } else {
                None
            },
            None => None,
        }
    }

    /// The buffer size MUST be greater or equal to the target structure size (for reading). For
    /// writing the buffer size can be any, however it is still recommended to use the target
    /// structure size for the buffer pre-allocation.
    pub fn new(device: &Device, symbol: &str, buf_size: usize) -> (r: Self)
        ensures
            r.device() == *device,
            r.symbol() == symbol@,
            r.buffer() == Seq::new(buf_size as nat, |i: int| 0u8),
            r.cached() is None,
    {
        let buf = vec![0u8; buf_size];
        assert(buf@ =~= Seq::new(buf_size as nat, |i: int| 0u8));
        Self { device: *device, buf, symbol: symbol.to_owned(), session_id: 0, handle: None }
    }

    /// The handle to use in the session `session_id`, if the cached one is
    /// good for it.  `None` means that a handle is to be acquired: see
    /// [`AdsMapping::handle_request`].
    pub fn cached_handle(&self, session_id: usize) -> (r: Option<Handle>)
        ensures
            r == self.handle_in(session_id),
    {
        match self.handle {
            Some(h) => {
                if self.session_id == session_id {
                    Some(h)
                } else {
                    None
                }
            },
            None => None,
        }
    }

    /// Forgets the cached handle.
    pub fn invalidate(&mut self)
        ensures
            final(self).cached() is None,
            final(self).device() == old(self).device(),
            final(self).symbol() == old(self).symbol(),
            final(self).buffer() == old(self).buffer(),
    {
        self.handle = None;
    }

    /// The request for a handle of the symbol: its name is written to the
    /// index group for handles by name, and four bytes are read back.
    pub fn handle_request(&self, invoke_id: u32) -> (r: Result<Request, Error>)
        ensures
            r is Err <==> 32 + 16 + self.symbol_bytes().len() > u32::MAX,
            r matches Err(e) ==> e == Error::InvalidData,
            r matches Ok(q) ==> self.device().is_request(
                q,
                Command::ReadWrite,
                invoke_id,
                (IndexLengthRW {
                    index_group: GET_SYMHANDLE_BYNAME,
                    index_offset: 0,
                    read_length: 4,
                    write_length: self.symbol_bytes().len() as u32,
                }).bytes() + self.symbol_bytes(),
            ),
    {
        self.device.write_read_request(
            invoke_id,
            GET_SYMHANDLE_BYNAME,
            0,
            self.symbol.as_str().as_bytes(),
            4,
        )
    }

    /// The name of the symbol as it goes on the wire.
    pub closed spec fn symbol_bytes(&self) -> Seq<u8> {
        vstd::utf8::encode_utf8(self.symbol@)
    }

    /// What the reply to a request for a handle means: the handle, which
    /// the reply holds in four bytes behind their length.  On success the
    /// handle is cached for the session `session_id`; on an error the cache
    /// stays as it was.
    pub fn handle_reply(&mut self, session_id: usize, request: &Request, reply: &[u8]) -> (r: Result<
        Handle,
        Error,
    >)
        ensures
            final(self).device() == old(self).device(),
            final(self).symbol() == old(self).symbol(),
            final(self).buffer() == old(self).buffer(),
            r == (match exact_outcome(
                read_outcome(
                    request.spec_cmd(),
                    request.spec_target(),
                    request.spec_invoke_id(),
                    reply@,
                    4,
                ),
                4,
            ) {
                Err(e) => Err::<Handle, Error>(e),
                Ok(_) => Ok::<Handle, Error>(le_u32(reply@.subrange(46, 50))),
            }),
            final(self).cached() == (match r {
                Ok(h) => Some((session_id, h)),
                Err(_) => old(self).cached(),
            }),
    {
        let mut handle = [0u8; 4];
        match Device::write_read_exact_reply(request, reply, &mut handle) {
            Err(e) => Err(e),
            Ok(()) => {
                let h = crate::bytes::get_u32(handle.as_slice(), 0);
                assert(handle@.subrange(0, 4) =~= reply@.subrange(46, 50));
                self.handle = Some(h);
                self.session_id = session_id;
                Ok(h)
            },
        }
    }

    /// The request to read the value of the symbol by its handle into the
    /// buffer.
    pub fn read_request(&self, invoke_id: u32, handle: Handle) -> (r: Result<Request, Error>)
        ensures
            r is Err <==> self.buffer().len() > u32::MAX,
            r matches Err(e) ==> e == Error::InvalidData,
            r matches Ok(q) ==> self.device().is_request(
                q,
                Command::Read,
                invoke_id,
                (IndexLength {
                    index_group: RW_SYMVAL_BYHANDLE,
                    index_offset: handle,
                    length: self.buffer().len() as u32,
                }).bytes(),
            ),
    {
        self.device.read_request(invoke_id, RW_SYMVAL_BYHANDLE, handle, self.buf.len())
    }

    /// What the reply to a request to read the value means: the value, for
    /// the caller to decode.  The buffer receives the data of the reply; a
    /// reply that gives a length beyond the buffer, or beyond its own data,
    /// is refused with `BufferOverflow`, and the buffer is then left as it
    /// was.
    pub fn read_reply(&mut self, request: &Request, reply: &[u8]) -> (r: Result<&[u8], Error>)
        ensures
            final(self).device() == old(self).device(),
            final(self).symbol() == old(self).symbol(),
            final(self).cached() == old(self).cached(),
            match read_outcome(
                request.spec_cmd(),
                request.spec_target(),
                request.spec_invoke_id(),
                reply@,
                old(self).buffer().len(),
            ) {
                Err(e) => r matches Err(f) && f == e && final(self).buffer() == old(self).buffer(),
                Ok(n) => {
                    &&& final(self).buffer() == dealt_at(reply_payload(reply@), 4, old(self).buffer())
                    &&& r matches Ok(v) && v@ == reply@.subrange(46, 46 + n)
                },
            },
    {
        let ghost before = self.buf@;
        let len = match Device::read_reply(request, reply, self.buf.as_mut_slice()) {
            Err(e) => {
                return Err(e);
            },
            Ok(len) => len,
        };
        proof {
            crate::client::lemma_read_returns_peer_data(
                request.spec_cmd(),
                request.spec_target(),
                request.spec_invoke_id(),
                reply@,
                before,
            );
        }
        Ok(&self.buf.as_slice()[0..len])
    }

    /// The buffer, for the caller to encode a value into.
    pub fn write_buffer(&mut self) -> (r: &mut Vec<u8>)
        ensures
            r@ == old(self).buffer(),
            final(self).buffer() == final(r)@,
            final(self).device() == old(self).device(),
            final(self).symbol() == old(self).symbol(),
            final(self).cached() == old(self).cached(),
    {
        &mut self.buf
    }

    /// The request to write the first `produced` bytes of the buffer as the
    /// value of the symbol, by its handle.  Fails with `InvalidData`
    /// exactly when the buffer does not hold that many bytes, or the frame
    /// would be longer than a 32-bit length can say.
    pub fn write_request(&self, invoke_id: u32, handle: Handle, produced: usize) -> (r: Result<
        Request,
        Error,
    >)
        ensures
            r is Err <==> produced > self.buffer().len() || 32 + 12 + produced > u32::MAX,
            r matches Err(e) ==> e == Error::InvalidData,
            r matches Ok(q) ==> self.device().is_request(
                q,
                Command::Write,
                invoke_id,
                (IndexLength {
                    index_group: RW_SYMVAL_BYHANDLE,
                    index_offset: handle,
                    length: produced as u32,
                }).bytes() + self.buffer().subrange(0, produced as int),
            ),
    {
        if produced > self.buf.len() {
            return Err(Error::InvalidData);
        }
        self.device.write_request(
            invoke_id,
            RW_SYMVAL_BYHANDLE,
            handle,
            &self.buf.as_slice()[0..produced],
        )
    }

    /// What the reply to a request to write the value means.
    pub fn write_reply(request: &Request, reply: &[u8]) -> (r: Result<(), Error>)
        ensures
            r == (match crate::client::reply_fault(
                request.spec_cmd(),
                request.spec_target(),
                request.spec_invoke_id(),
                reply@,
            ) {
                Some(e) => Err::<(), Error>(e),
                None => Ok::<(), Error>(()),
            }),
    {
        Device::write_reply(request, reply)
    }
}

} // verus!
