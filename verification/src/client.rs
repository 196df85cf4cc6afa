//! The request engine: what goes out for a command, and what a reply means.
//!
//! Nothing here touches a socket.  A [`Request`] is the frame to send for one
//! command; [`Request::complete`] judges the reply that came back for it and
//! hands its data out.  In between, the caller registers the invoke ID,
//! writes the frame and waits for the reader to deliver the reply.

use crate::bytes::{
    concat, get_u16, get_u32, le_u16, le_u32, prefix_len, same_bytes, total_len, views, views_mut,
};
use crate::errors::{Error, IoError};
use crate::netid::{local_netid_bytes, AmsAddr, AmsNetId};
use crate::notif::Handle;
use crate::wire::{AdsHeader, AMS_HEADER_SIZE, TCP_HEADER_SIZE};
use vstd::prelude::*;

pub use crate::device::Device;
pub use crate::reader::{Reader, RestartEvent};
pub use crate::state::AdsState;
pub use crate::sumup::{
    fixup_write_read_return_buffers, AddNotifRequest, DelNotifRequest, ReadRequest, WriteReadRequest,
    WriteRequest,
};

verus! {

/// Size of a fresh response buffer.
pub const DEFAULT_BUFFER_SIZE: usize = 100;

/// Bound of the notification channel.
pub const MAX_NOTIFICATION_QUEUE: usize = 16384;

/// Bound of the channel that recycles response buffers.
pub const MAX_BUF_QUEUE: usize = 1024;

/// The port that a client with an auto-generated address uses.
pub const AUTO_SOURCE_PORT: u16 = 58913;

/// An ADS protocol command.
#[derive(Clone, Copy, Debug, PartialEq, Eq, Structural)]
pub enum Command {
    /// Return device info
    DevInfo,
    /// Read some data
    Read,
    /// Write some data
    Write,
    /// Write some data, then read back some data
    /// (used as a poor-man's function call)
    ReadWrite,
    /// Read the ADS and device state
    ReadState,
    /// Set the ADS and device state
    WriteControl,
    /// Add a notification for a given index
    AddNotification,
    /// Add a notification for a given index
    DeleteNotification,
    /// Change occurred in a given notification,
    /// can be sent by the PLC only
    Notification,
}

impl Command {
    /// The number of the command on the wire.
    pub open spec fn spec_code(self) -> u16 {
        match self {
            Command::DevInfo => 1,
            Command::Read => 2,
            Command::Write => 3,
            Command::ReadState => 4,
            Command::WriteControl => 5,
            Command::AddNotification => 6,
            Command::DeleteNotification => 7,
            Command::Notification => 8,
            Command::ReadWrite => 9,
        }
    }

    /// The number of the command on the wire.
    #[verifier::when_used_as_spec(spec_code)]
    pub fn code(self) -> (r: u16)
        ensures
            r == self.spec_code(),
    {
        match self {
            Command::DevInfo => 1,
            Command::Read => 2,
            Command::Write => 3,
            Command::ReadState => 4,
            Command::WriteControl => 5,
            Command::AddNotification => 6,
            Command::DeleteNotification => 7,
            Command::Notification => 8,
            Command::ReadWrite => 9,
        }
    }

    /// What the command does, for error messages.
    pub open spec fn spec_action(self) -> &'static str {
        match self {
            Command::DevInfo => "get device info",
            Command::Read => "read data",
            Command::Write => "write data",
            Command::ReadWrite => "write and read data",
            Command::ReadState => "read state",
            Command::WriteControl => "write control",
            Command::AddNotification => "add notification",
            Command::DeleteNotification => "delete notification",
            Command::Notification => "notification",
        }
    }

    /// What the command does, for error messages.
    #[verifier::when_used_as_spec(spec_action)]
    pub fn action(self) -> (r: &'static str)
        ensures
            r == self.spec_action(),
    {
        match self {
            Command::DevInfo => "get device info",
            Command::Read => "read data",
            Command::Write => "write data",
            Command::ReadWrite => "write and read data",
            Command::ReadState => "read state",
            Command::WriteControl => "write control",
            Command::AddNotification => "add notification",
            Command::DeleteNotification => "delete notification",
            Command::Notification => "notification",
        }
    }
}

/// Specifies the source AMS address to use.
#[derive(Clone, Copy, Debug)]
pub enum Source {
    /// Auto-generate a source address from the local address and a fixed port.
    Auto,
    /// Use a specified source address.
    Addr(AmsAddr),
}

impl Source {
    /// The source address that a client uses, where `local_ip` holds the four
    /// octets of the connection's local address if that is an IPv4 address.
    pub open spec fn spec_resolve(self, local_ip: Option<[u8; 4]>) -> (Seq<u8>, u16) {
        match self {
            Source::Addr(addr) => (addr.netid().bytes(), addr.port()),
            Source::Auto => match local_ip {
                Some(ip) => (seq![ip@[0], ip@[1], ip@[2], ip@[3], 1u8, 1u8], AUTO_SOURCE_PORT),
                None => (seq![127u8, 0u8, 0u8, 1u8, 1u8, 1u8], AUTO_SOURCE_PORT),
            },
        }
    }

    /// The source address that a client uses: the given one, or the local
    /// IPv4 address with `.1.1` appended and port 58913, or `127.0.0.1.1.1`
    /// with that port where there is no local IPv4 address.
    pub fn resolve(self, local_ip: Option<[u8; 4]>) -> (r: AmsAddr)
        ensures
            (r.netid().bytes(), r.port()) == self.spec_resolve(local_ip),
            self matches Source::Addr(addr) ==> r == addr,
    {
        match self {
            Source::Addr(addr) => addr,
            Source::Auto => match local_ip {
                Some(ip) => AmsAddr::new(AmsNetId::new(ip[0], ip[1], ip[2], ip[3], 1, 1), AUTO_SOURCE_PORT),
                None => AmsAddr::new(AmsNetId::new(127, 0, 0, 1, 1, 1), AUTO_SOURCE_PORT),
            },
        }
    }
}

/// The header of a request for `cmd` from `source` to `target` that carries
/// `data_len` bytes.
pub open spec fn request_header(
    source: AmsAddr,
    target: AmsAddr,
    cmd: Command,
    invoke_id: u32,
    data_len: nat,
) -> AdsHeader {
    AdsHeader {
        ams_cmd: 0,
        length: (32 + data_len) as u32,
        dest_netid: target.netid(),
        dest_port: target.port(),
        src_netid: source.netid(),
        src_port: source.port(),
        command: cmd.spec_code(),
        state_flags: 4,
        data_length: data_len as u32,
        error_code: 0,
        invoke_id,
    }
}

/// The frame of a request: header, then payload.
pub open spec fn request_bytes(
    source: AmsAddr,
    target: AmsAddr,
    cmd: Command,
    invoke_id: u32,
    payload: Seq<u8>,
) -> Seq<u8> {
    request_header(source, target, cmd, invoke_id, payload.len()).bytes() + payload
}

/// Whether `reply` comes from `target`, answers `cmd` and carries
/// `invoke_id`.
pub open spec fn reply_matches(cmd: Command, target: AmsAddr, invoke_id: u32, reply: Seq<u8>) -> bool {
    &&& reply.len() >= 38
    &&& reply.subrange(14, 22) == target.wire()
    &&& le_u16(reply.subrange(22, 24)) == cmd.spec_code()
    &&& le_u32(reply.subrange(34, 38)) == invoke_id
}

/// The first fault of `reply` as an answer to the request for `cmd` that went
/// to `target` under `invoke_id`; `None` if it has none.
pub open spec fn reply_fault(cmd: Command, target: AmsAddr, invoke_id: u32, reply: Seq<u8>) -> Option<
    Error,
> {
    if reply.len() < 38 {
        Some(Error::Io(IoError::ReplyTooShort))
    } else if reply.subrange(14, 22) != target.wire() {
        Some(Error::Io(IoError::UnexpectedSource))
    } else if le_u16(reply.subrange(22, 24)) != cmd.spec_code() {
        Some(Error::Io(IoError::UnexpectedCommand))
    } else if le_u16(reply.subrange(24, 26)) != 5 {
        Some(Error::Io(IoError::UnexpectedStateFlags))
    } else if le_u32(reply.subrange(34, 38)) != invoke_id {
        Some(Error::Io(IoError::UnexpectedInvokeId))
    } else if le_u32(reply.subrange(30, 34)) != 0 {
        Some(Error::Ads { action: cmd.spec_action(), code: le_u32(reply.subrange(30, 34)) })
    } else if reply.len() >= 42 && le_u32(reply.subrange(38, 42)) != 0 {
        Some(Error::Ads { action: cmd.spec_action(), code: le_u32(reply.subrange(38, 42)) })
    } else {
        None
    }
}

/// What an exchange returns: the fault of the reply if it has one; 0 if the
/// caller wants no data; an error if the reply holds less than the first
/// output buffer or less than its own header announces; else the number of
/// bytes behind the result code.  `first` is the length of the first output
/// buffer, if there is one.
pub open spec fn reply_outcome(
    cmd: Command,
    target: AmsAddr,
    invoke_id: u32,
    reply: Seq<u8>,
    first: Option<nat>,
) -> Result<usize, Error> {
    let data_len = le_u32(reply.subrange(26, 30));
    match reply_fault(cmd, target, invoke_id, reply) {
        Some(e) => Err(e),
        None => match first {
            None => Ok(0usize),
            Some(n) => if data_len < n + 4 {
                Err(Error::Io(IoError::ShortData))
            } else if reply.len() < 38 + data_len {
                Err(Error::Io(IoError::UnexpectedEof))
            } else {
                Ok((data_len - 4) as usize)
            },
        },
    }
}

/// The user data of a reply: what follows the result code.
pub open spec fn reply_payload(reply: Seq<u8>) -> Seq<u8> {
    reply.subrange(42, 38 + le_u32(reply.subrange(26, 30)))
}

/// The content of a buffer that held `old` after it has been filled from
/// `payload`, starting `offset` bytes into the payload: it receives what is
/// there, as far as it has room, and keeps the rest of what it held.
pub open spec fn dealt_at(payload: Seq<u8>, offset: nat, old: Seq<u8>) -> Seq<u8> {
    let off = if offset < payload.len() {
        offset as int
    } else {
        payload.len() as int
    };
    let rest = payload.len() - off;
    let n = if old.len() < rest {
        old.len() as int
    } else {
        rest
    };
    payload.subrange(off, off + n) + old.subrange(n, old.len() as int)
}

/// The content of output buffer `k` after `payload` has been dealt out over
/// buffers that held `olds`: the buffers are filled one after the other, each
/// from its start, until the payload or the buffers run out; what is not
/// overwritten stays.
pub open spec fn dealt(payload: Seq<u8>, olds: Seq<Seq<u8>>, k: int) -> Seq<u8> {
    dealt_at(payload, prefix_len(olds, k), olds[k])
}

/// The length of the first of `bufs`, if there is one.
pub open spec fn first_len(bufs: Seq<Seq<u8>>) -> Option<nat> {
    if bufs.len() == 0 {
        None
    } else {
        Some(bufs[0].len())
    }
}

/// For every exchange that succeeds, the reply comes from where the request
/// went, carries the invoke ID of the request and answers its command: the
/// source address of the reply is the destination address in the frame of
/// the request, and the two frames hold the same command and invoke ID.
pub proof fn lemma_success_matches_request(
    source: AmsAddr,
    target: AmsAddr,
    cmd: Command,
    invoke_id: u32,
    payload: Seq<u8>,
    reply: Seq<u8>,
    first: Option<nat>,
)
    requires
        reply_outcome(cmd, target, invoke_id, reply, first) is Ok,
    ensures
        reply_matches(cmd, target, invoke_id, reply),
        reply.subrange(14, 22) == request_bytes(source, target, cmd, invoke_id, payload).subrange(
            6,
            14,
        ),
        le_u16(reply.subrange(22, 24)) == le_u16(
            request_bytes(source, target, cmd, invoke_id, payload).subrange(22, 24),
        ),
        le_u32(reply.subrange(34, 38)) == le_u32(
            request_bytes(source, target, cmd, invoke_id, payload).subrange(34, 38),
        ),
{
    let h = request_header(source, target, cmd, invoke_id, payload.len());
    let frame = request_bytes(source, target, cmd, invoke_id, payload);
    h.lemma_roundtrip();
    assert(frame.subrange(0, 38) =~= h.bytes());
    assert(frame.subrange(6, 14) =~= target.wire());
    assert(frame.subrange(22, 24) =~= h.bytes().subrange(22, 24));
    assert(frame.subrange(34, 38) =~= h.bytes().subrange(34, 38));
    assert(AdsHeader::decode(h.bytes()).command == cmd.spec_code());
    assert(AdsHeader::decode(h.bytes()).invoke_id == invoke_id);
}

/// A reply that is shorter than the two headers is refused as too short,
/// whatever else it holds.
pub proof fn lemma_short_reply(cmd: Command, target: AmsAddr, invoke_id: u32, reply: Seq<u8>, first: Option<nat>)
    requires
        reply.len() < 38,
    ensures
        reply_outcome(cmd, target, invoke_id, reply, first) == Err::<usize, Error>(
            Error::Io(IoError::ReplyTooShort),
        ),
{
}

/// A reply without fault whose data is shorter than the first output
/// buffer and the result code together is refused.
pub proof fn lemma_less_data(cmd: Command, target: AmsAddr, invoke_id: u32, reply: Seq<u8>, first: nat)
    requires
        reply_fault(cmd, target, invoke_id, reply) is None,
        le_u32(reply.subrange(26, 30)) < first + 4,
    ensures
        reply_outcome(cmd, target, invoke_id, reply, Some(first)) == Err::<usize, Error>(
            Error::Io(IoError::ShortData),
        ),
{
}

/// What a read into a buffer of `room` bytes returns.  The user data of the
/// reply to a read is the length of the data, in four bytes, and the data.
/// A reply in order gives that length, if it is no more than the buffer
/// holds and no more than the data that the reply carries; a length beyond
/// either is refused.
pub open spec fn read_outcome(cmd: Command, target: AmsAddr, invoke_id: u32, reply: Seq<u8>, room: nat) -> Result<
    usize,
    Error,
> {
    match reply_outcome(cmd, target, invoke_id, reply, Some(4nat)) {
        Err(e) => Err(e),
        Ok(n) => {
            let len = le_u32(reply.subrange(42, 46));
            if len <= room && 8 + len <= le_u32(reply.subrange(26, 30)) {
                Ok(len as usize)
            } else {
                Err(Error::Io(IoError::BufferOverflow))
            }
        },
    }
}

/// A read returns what the peer returned: the length that a read returns is
/// no more than the buffer holds, and the buffer, filled from the reply,
/// starts with that many bytes of the reply's data.
pub proof fn lemma_read_returns_peer_data(
    cmd: Command,
    target: AmsAddr,
    invoke_id: u32,
    reply: Seq<u8>,
    buffer: Seq<u8>,
)
    requires
        read_outcome(cmd, target, invoke_id, reply, buffer.len()) is Ok,
    ensures
        ({
            let n = read_outcome(cmd, target, invoke_id, reply, buffer.len())->Ok_0 as int;
            &&& n <= buffer.len()
            &&& n == le_u32(reply.subrange(42, 46))
            &&& 46 + n <= reply.len()
            &&& dealt_at(reply_payload(reply), 4, buffer).subrange(0, n) == reply.subrange(46, 46 + n)
        }),
{
    let n = le_u32(reply.subrange(42, 46)) as int;
    assert(dealt_at(reply_payload(reply), 4, buffer).subrange(0, n) =~= reply.subrange(46, 46 + n));
}

/// An offset is no more than a `usize` can hold for the dealing: beyond the
/// end of the payload all offsets are the same.
pub proof fn lemma_dealt_at_beyond(payload: Seq<u8>, a: nat, b: nat, old: Seq<u8>)
    requires
        a >= payload.len(),
        b >= payload.len(),
    ensures
        dealt_at(payload, a, old) == dealt_at(payload, b, old),
        dealt_at(payload, a, old) == old,
{
    assert(dealt_at(payload, a, old) =~= old);
    assert(dealt_at(payload, b, old) =~= old);
}

/// Fills `dst` from `payload`, starting `offset` bytes into the payload, as
/// far as the payload reaches and `dst` has room.
pub fn deal(payload: &[u8], offset: usize, dst: &mut [u8])
    ensures
        final(dst)@ == dealt_at(payload@, offset as nat, old(dst)@),
{
    let total = payload.len();
    let off = if offset < total {
        offset
    } else {
        total
    };
    let rest = total - off;
    let len = dst.len();
    let n = if len < rest {
        len
    } else {
        rest
    };
    let mut i: usize = 0;
    while i < n
        invariant
            i <= n,
            n <= dst@.len(),
            dst@.len() == old(dst)@.len(),
            off + n <= payload.len(),
            forall|p: int| 0 <= p < i ==> dst@[p] == payload@[off + p],
            forall|p: int| i <= p < dst@.len() ==> dst@[p] == old(dst)@[p],
        decreases n - i,
    {
        dst[i] = payload[off + i];
        i += 1;
    }
    assert(dst@ =~= dealt_at(payload@, offset as nat, old(dst)@));
}

/// The offset `len` bytes behind `offset`, or the largest offset there is.
pub fn advance(offset: usize, len: usize) -> (r: usize)
    ensures
        r == (if offset + len <= usize::MAX {
            (offset + len) as usize
        } else {
            usize::MAX
        }),
{
    match offset.checked_add(len) {
        Some(n) => n,
        None => usize::MAX,
    }
}

/// One request: the command, where it goes, its invoke ID and its frame.
pub struct Request {
    cmd: Command,
    target: AmsAddr,
    invoke_id: u32,
    bytes: Vec<u8>,
}

impl Request {
    /// The command of the request.
    pub closed spec fn spec_cmd(&self) -> Command {
        self.cmd
    }

    /// The address the request goes to.
    pub closed spec fn spec_target(&self) -> AmsAddr {
        self.target
    }

    /// The invoke ID of the request.
    pub closed spec fn spec_invoke_id(&self) -> u32 {
        self.invoke_id
    }

    /// The frame of the request.
    pub closed spec fn spec_bytes(&self) -> Seq<u8> {
        self.bytes@
    }

    /// The command of the request.
    #[verifier::when_used_as_spec(spec_cmd)]
    pub fn cmd(&self) -> (r: Command)
        ensures
            r == self.spec_cmd(),
    {
        self.cmd
    }

    /// The address the request goes to.
    #[verifier::when_used_as_spec(spec_target)]
    pub fn target(&self) -> (r: AmsAddr)
        ensures
            r == self.spec_target(),
    {
        self.target
    }

    /// The invoke ID of the request.
    #[verifier::when_used_as_spec(spec_invoke_id)]
    pub fn invoke_id(&self) -> (r: u32)
        ensures
            r == self.spec_invoke_id(),
    {
        self.invoke_id
    }

    /// The frame to write to the socket, in one piece.
    pub fn bytes(&self) -> (r: &[u8])
        ensures
            r@ == self.spec_bytes(),
    {
        self.bytes.as_slice()
    }

    /// The request for `cmd` from `source` to `target` under `invoke_id`,
    /// with the buffers of `data_in` as its payload.  Fails with
    /// `InvalidData` exactly when the payload and the AMS header together
    /// are longer than a 32-bit length can say.
    pub fn new(
        source: AmsAddr,
        target: AmsAddr,
        cmd: Command,
        invoke_id: u32,
        data_in: &[&[u8]],
    ) -> (r: Result<Request, Error>)
        ensures
            r is Err <==> 32 + total_len(views(data_in@)) > u32::MAX,
            r matches Err(e) ==> e == Error::InvalidData,
            total_len(views(data_in@)) > u32::MAX ==> (r matches Err(e) && e == Error::InvalidData),
            r matches Ok(req) ==> {
                &&& req.spec_cmd() == cmd
                &&& req.spec_target() == target
                &&& req.spec_invoke_id() == invoke_id
                &&& req.spec_bytes() == request_bytes(
                    source,
                    target,
                    cmd,
                    invoke_id,
                    concat(views(data_in@)),
                )
            },
    {
        let ghost bufs = views(data_in@);
        // The data we send is the sum of all data_in buffers.
        let limit: usize = 0xffff_ffff - 32;
        let mut data_in_len: usize = 0;
        let mut i: usize = 0;
        while i < data_in.len()
            invariant
                i <= data_in.len(),
                bufs == views(data_in@),
                data_in_len == prefix_len(bufs, i as int),
                data_in_len <= limit,
                limit == 0xffff_ffff - 32,
            decreases data_in.len() - i,
        {
            let len = data_in[i].len();
            if len > limit - data_in_len {
                proof {
                    crate::bytes::lemma_prefix_len_monotonic(bufs, i + 1, bufs.len() as int);
                }
                return Err(Error::InvalidData);
            }
            data_in_len = data_in_len + len;
            i += 1;
        }
        // Create outgoing header.
        let header = AdsHeader {
            ams_cmd: 0,  // send command
            length: (AMS_HEADER_SIZE - TCP_HEADER_SIZE + data_in_len) as u32,
            dest_netid: target.netid(),
            dest_port: target.port(),
            src_netid: source.netid(),
            src_port: source.port(),
            command: cmd.code(),
            state_flags: 4,  // state flags (4 = send command)
            data_length: data_in_len as u32,
            error_code: 0,
            invoke_id,
        };
        // Collect the outgoing data in one buffer, for a single write.
        let mut request = header.to_bytes();
        let mut i: usize = 0;
        while i < data_in.len()
            invariant
                i <= data_in.len(),
                bufs == views(data_in@),
                request@ == header.bytes() + crate::bytes::concat_prefix(bufs, i as int),
            decreases data_in.len() - i,
        {
            request.extend_from_slice(data_in[i]);
            i += 1;
        }
        proof {
            crate::bytes::lemma_concat_len(bufs, bufs.len() as int);
        }
        Ok(Request { cmd, target, invoke_id, bytes: request })
    }

    /// Judges `reply` as the answer to this request, in the order of
    /// [`reply_fault`], and turns a fault into its error.
    pub fn check(&self, reply: &[u8]) -> (r: Result<(), Error>)
        ensures
            match reply_fault(self.spec_cmd(), self.spec_target(), self.spec_invoke_id(), reply@) {
                Some(e) => r == Err::<(), Error>(e),
                None => r is Ok,
            },
    {
        if reply.len() < AMS_HEADER_SIZE {
            return Err(Error::Io(IoError::ReplyTooShort));
        }
        // The source netid/port must match what we sent.
        let expected = self.target.to_bytes();
        if !same_bytes(&reply[14..22], &expected) {
            return Err(Error::Io(IoError::UnexpectedSource));
        }
        // Read the other fields we need.
        let ret_cmd = get_u16(reply, 22);
        let state_flags = get_u16(reply, 24);
        let error_code = get_u32(reply, 30);
        let reply_invoke_id = get_u32(reply, 34);
        let result = if reply.len() >= AMS_HEADER_SIZE + 4 {
            get_u32(reply, 38)
        } else {
            0  // this must be because an error code is already set
        };
        // Command must match.
        if ret_cmd != self.cmd.code() {
            return Err(Error::Io(IoError::UnexpectedCommand));
        }
        // State flags must be "4 | 1".
        if state_flags != 5 {
            return Err(Error::Io(IoError::UnexpectedStateFlags));
        }
        // Invoke ID must match what we sent.
        if reply_invoke_id != self.invoke_id {
            return Err(Error::Io(IoError::UnexpectedInvokeId));
        }
        // Check error code in AMS header.
        if error_code != 0 {
            return Err(crate::errors::ads_error(self.cmd.action(), error_code));
        }
        // Check result field in payload, only relevant if error_code == 0.
        if result != 0 {
            return Err(crate::errors::ads_error(self.cmd.action(), result));
        }
        Ok(())
    }

    /// Judges `reply` as the answer to this request, for a caller whose first
    /// output buffer has the length `first`, or who has no output buffer.
    /// Returns the number of bytes of user data in the reply; these lie at
    /// offset 42 of the reply.
    pub fn begin(&self, reply: &[u8], first: Option<usize>) -> (r: Result<usize, Error>)
        ensures
            r == reply_outcome(
                self.spec_cmd(),
                self.spec_target(),
                self.spec_invoke_id(),
                reply@,
                match first {
                    Some(n) => Some(n as nat),
                    None => None,
                },
            ),
            first is Some && r is Ok ==> {
                &&& 42 + r->Ok_0 <= reply@.len() <= usize::MAX
                &&& reply_payload(reply@) == reply@.subrange(42, 42 + r->Ok_0)
            },
    {
        match self.check(reply) {
            Err(e) => {
                return Err(e);
            },
            Ok(()) => {},
        }
        // If we don't want return data, we're done.
        let first = match first {
            None => {
                return Ok(0);
            },
            Some(n) => n,
        };
        // Check returned length, it needs to fill at least the first data_out
        // buffer.  This also ensures that we had a result field.
        let data_len = get_u32(reply, 26) as usize;
        if data_len < 4 || data_len - 4 < first {
            return Err(Error::Io(IoError::ShortData));
        }
        if reply.len() - AMS_HEADER_SIZE < data_len {
            return Err(Error::Io(IoError::UnexpectedEof));
        }
        // The pure user data length, without the result field.
        Ok(data_len - 4)
    }

    /// Judges `reply` as the answer to this request and, if it is a good one,
    /// deals its user data out over `data_out`.  Returns the number of bytes
    /// of user data in the reply, which may be more or less than the buffers
    /// hold; with no output buffer, returns 0.  On an error the buffers are
    /// left as they were.
    pub fn complete(&self, reply: &[u8], data_out: &mut [&mut [u8]]) -> (r: Result<usize, Error>)
        ensures
            r == reply_outcome(
                self.spec_cmd(),
                self.spec_target(),
                self.spec_invoke_id(),
                reply@,
                first_len(views_mut(old(data_out)@)),
            ),
            reply@.len() < 38 ==> r == Err::<usize, Error>(Error::Io(IoError::ReplyTooShort)),
            reply_fault(self.spec_cmd(), self.spec_target(), self.spec_invoke_id(), reply@) is None
                && old(data_out)@.len() > 0 && le_u32(reply@.subrange(26, 30)) < old(
                data_out,
            )@[0]@.len() + 4 ==> r == Err::<usize, Error>(Error::Io(IoError::ShortData)),
            r is Ok ==> reply_matches(
                self.spec_cmd(),
                self.spec_target(),
                self.spec_invoke_id(),
                reply@,
            ),
            final(data_out)@.len() == old(data_out)@.len(),
            forall|k: int|
                0 <= k < old(data_out)@.len() ==> final(final(data_out)@[k])@
                    == final(old(data_out)@[k])@,
            forall|k: int|
                0 <= k < old(data_out)@.len() ==> #[trigger] final(data_out)@[k]@ == (if r is Ok {
                    dealt(reply_payload(reply@), views_mut(old(data_out)@), k)
                } else {
                    old(data_out)@[k]@
                }),
    {
        let ghost olds = views_mut(data_out@);
        let first = if data_out.len() == 0 {
            None
        } else {
            Some(data_out[0].len())
        };
        let data_len = match self.begin(reply, first) {
            Err(e) => {
                return Err(e);
            },
            Ok(n) => n,
        };
        // If we don't want return data, we're done.
        if data_out.len() == 0 {
            return Ok(0);
        }
        let ghost payload = reply_payload(reply@);
        assert(payload == reply@.subrange(42, 42 + data_len));

        // Distribute the data into the user output buffers, up to the returned
        // data length.
        let mut offset: usize = AMS_HEADER_SIZE + 4;
        let mut rest_len = data_len;
        let mut k: usize = 0;
        while k < data_out.len() && rest_len > 0
            invariant
                k <= data_out@.len(),
                data_out@.len() == olds.len(),
                old(data_out)@.len() == olds.len(),
                olds == views_mut(old(data_out)@),
                payload == reply@.subrange(42, 42 + data_len),
                reply.len() >= 42 + data_len,
                offset + rest_len == 42 + data_len,
                offset >= 42,
                offset - 42 == (if prefix_len(olds, k as int) < data_len {
                    prefix_len(olds, k as int)
                } else {
                    data_len as nat
                }),
                rest_len > 0 ==> offset - 42 == prefix_len(olds, k as int),
                forall|j: int|
                    0 <= j < olds.len() ==> final(data_out@[j])@ == final(old(data_out)@[j])@,
                forall|j: int| 0 <= j < k ==> #[trigger] data_out@[j]@ == dealt(payload, olds, j),
                forall|j: int| k <= j < olds.len() ==> #[trigger] data_out@[j]@ == olds[j],
            decreases data_out@.len() - k,
        {
            let len = data_out[k].len();
            let n = if len < rest_len { len } else { rest_len };
            let mut i: usize = 0;
            while i < n
                invariant
                    i <= n,
                    k < data_out@.len(),
                    data_out@.len() == olds.len(),
                    n <= olds[k as int].len(),
                    offset + n <= reply.len(),
                    old(data_out)@.len() == olds.len(),
                    forall|j: int|
                        0 <= j < olds.len() ==> final(data_out@[j])@ == final(old(data_out)@[j])@,
                    forall|j: int|
                        0 <= j < olds.len() && j != k ==> #[trigger] data_out@[j]@ == (if j < k {
                            dealt(payload, olds, j)
                        } else {
                            olds[j]
                        }),
                    data_out@[k as int]@.len() == olds[k as int].len(),
                    forall|p: int| 0 <= p < i ==> data_out@[k as int]@[p] == reply@[offset + p],
                    forall|p: int|
                        i <= p < olds[k as int].len() ==> data_out@[k as int]@[p] == olds[k as int][p],
                decreases n - i,
            {
                data_out[k][i] = reply[offset + i];
                i += 1;
            }
            proof {
                let d = dealt(payload, olds, k as int);
                let got = data_out@[k as int]@;
                assert(len == olds[k as int].len());
                assert(offset - 42 == prefix_len(olds, k as int));
                assert(d.len() == got.len());
                assert forall|p: int| 0 <= p < got.len() implies got[p] == d[p] by {
                    if p < n {
                        assert(payload[offset - 42 + p] == reply@[offset + p]);
                    }
                }
                assert(got =~= d);
            }
            offset += n;
            rest_len -= n;
            k += 1;
        }
        assert forall|j: int| 0 <= j < olds.len() implies #[trigger] data_out@[j]@ == dealt(
            payload,
            olds,
            j,
        ) by {
            if j >= k {
                crate::bytes::lemma_prefix_len_monotonic(olds, k as int, j);
                assert(dealt(payload, olds, j) =~= olds[j]);
            }
        }
        Ok(data_len)
    }
}

/// Device info returned from an ADS server.
#[derive(Debug)]
pub struct DeviceInfo {
    /// Name of the ADS device/service.
    pub name: String,
    /// Major version.
    pub major: u8,
    /// Minor version.
    pub minor: u8,
    /// Build version.
    pub version: u16,
}

/// The state of a client that outlives its exchanges: its own address, and
/// the notification handles that it has to close when it shuts down.
pub struct Client {
    source: AmsAddr,
    notif_handles: Vec<(AmsAddr, Handle)>,
}

impl Client {
    #[verifier::type_invariant]
    spec fn inv(self) -> bool {
        forall|i: int, j: int|
            0 <= i < j < self.notif_handles@.len() ==> self.notif_handles@[i] != self.notif_handles@[j]
    }

    /// The address of the client.
    pub closed spec fn spec_source(&self) -> AmsAddr {
        self.source
    }

    /// The notification handles that are open, each with the address of its
    /// device.
    pub closed spec fn handles(&self) -> Set<(AmsAddr, Handle)> {
        Set::new(|h: (AmsAddr, Handle)| self.notif_handles@.contains(h))
    }

    /// A client with the address `source` and no open notification.
    pub fn new(source: AmsAddr) -> (r: Client)
        ensures
            r.spec_source() == source,
            r.handles() == Set::<(AmsAddr, Handle)>::empty(),
    {
        let r = Client { source, notif_handles: Vec::new() };
        assert(r.handles() =~= Set::<(AmsAddr, Handle)>::empty());
        r
    }

    /// Return the source address the client is using.
    #[verifier::when_used_as_spec(spec_source)]
    pub fn source(&self) -> (r: AmsAddr)
        ensures
            r == self.spec_source(),
    {
        self.source
    }

    /// Return a wrapper that executes operations for a target device (known by
    /// NetID and port).
    ///
    /// The local NetID `127.0.0.1.1.1` is mapped to the client's source NetID,
    /// so that a local PLC can be reached without knowing its NetID.
    pub fn device(&self, addr: AmsAddr) -> (r: Device)
        ensures
            r.spec_source() == self.spec_source(),
            r.spec_addr().port() == addr.port(),
            r.spec_addr().netid() == (if addr.netid().bytes() == local_netid_bytes() {
                self.spec_source().netid()
            } else {
                addr.netid()
            }),
            addr.netid().bytes() != local_netid_bytes() ==> r.spec_addr() == addr,
    {
        let target = if addr.netid().same(&AmsNetId::local()) {
            AmsAddr::new(self.source.netid(), addr.port())
        } else {
            addr
        };
        Device::new(self.source, target)
    }

    /// The request for `cmd` to `target` under `invoke_id`, with the buffers
    /// of `data_in` as its payload: see [`Request::new`].
    pub fn request(&self, invoke_id: u32, cmd: Command, target: AmsAddr, data_in: &[&[u8]]) -> (r:
        Result<Request, Error>)
        ensures
            r is Err <==> 32 + total_len(views(data_in@)) > u32::MAX,
            r matches Err(e) ==> e == Error::InvalidData,
            r matches Ok(req) ==> {
                &&& req.spec_cmd() == cmd
                &&& req.spec_target() == target
                &&& req.spec_invoke_id() == invoke_id
                &&& req.spec_bytes() == request_bytes(
                    self.spec_source(),
                    target,
                    cmd,
                    invoke_id,
                    concat(views(data_in@)),
                )
            },
    {
        Request::new(self.source, target, cmd, invoke_id, data_in)
    }

    /// Whether the notification `handle` of the device at `addr` is open.
    pub fn is_tracked(&self, addr: AmsAddr, handle: Handle) -> (r: bool)
        ensures
            r == self.handles().contains((addr, handle)),
    {
        self.position(addr, handle).is_some()
    }

    /// The number of open notifications.
    pub fn handle_count(&self) -> (r: usize)
        ensures
            r == self.handles().len(),
    {
        proof {
            use_type_invariant(self);
            self.notif_handles@.unique_seq_to_set();
            assert(self.handles() =~= self.notif_handles@.to_set());
        }
        self.notif_handles.len()
    }

    /// Where the entry for `handle` at `addr` stands in the list.
    fn position(&self, addr: AmsAddr, handle: Handle) -> (r: Option<usize>)
        ensures
            r is Some <==> self.handles().contains((addr, handle)),
            r matches Some(i) ==> i < self.notif_handles@.len() && self.notif_handles@[i as int] == (
                addr,
                handle,
            ),
    {
        let mut i: usize = 0;
        while i < self.notif_handles.len()
            invariant
                i <= self.notif_handles@.len(),
                forall|k: int| 0 <= k < i ==> self.notif_handles@[k] != (addr, handle),
            decreases self.notif_handles@.len() - i,
        {
            if self.notif_handles[i].0.same(&addr) && self.notif_handles[i].1 == handle {
                assert(self.notif_handles@.contains((addr, handle)));
                return Some(i);
            }
            i += 1;
        }
        None
    }

    /// Notes that the notification `handle` of the device at `addr` is open.
    pub fn track(&mut self, addr: AmsAddr, handle: Handle)
        ensures
            final(self).handles() == old(self).handles().insert((addr, handle)),
            final(self).spec_source() == old(self).spec_source(),
    {
        proof {
            use_type_invariant(&*self);
        }
        let ghost before = self.notif_handles@;
        if self.position(addr, handle).is_none() {
            let mut handles: Vec<(AmsAddr, Handle)> = Vec::new();
            core::mem::swap(&mut self.notif_handles, &mut handles);
            handles.push((addr, handle));
            self.notif_handles = handles;
            assert forall|h: (AmsAddr, Handle)| #[trigger]
                self.notif_handles@.contains(h) == (before.contains(h) || h == (addr, handle)) by {
                if before.contains(h) {
                    let k = choose|k: int| 0 <= k < before.len() && before[k] == h;
                    assert(self.notif_handles@[k] == h);
                }
                if h == (addr, handle) {
                    assert(self.notif_handles@[before.len() as int] == h);
                }
            }
        }
        assert(self.handles() =~= old(self).handles().insert((addr, handle)));
    }

    /// Notes that the notification `handle` of the device at `addr` is
    /// closed.
    pub fn untrack(&mut self, addr: AmsAddr, handle: Handle)
        ensures
            final(self).handles() == old(self).handles().remove((addr, handle)),
            final(self).spec_source() == old(self).spec_source(),
    {
        proof {
            use_type_invariant(&*self);
        }
        let ghost before = self.notif_handles@;
        match self.position(addr, handle) {
            Some(i) => {
                let mut handles: Vec<(AmsAddr, Handle)> = Vec::new();
                core::mem::swap(&mut self.notif_handles, &mut handles);
                handles.remove(i);
                self.notif_handles = handles;
                assert forall|h: (AmsAddr, Handle)| #[trigger]
                    self.notif_handles@.contains(h) == (before.contains(h) && h != (addr, handle)) by {
                    if before.contains(h) && h != (addr, handle) {
                        let k = choose|k: int| 0 <= k < before.len() && before[k] == h;
                        if k < i {
                            assert(self.notif_handles@[k] == h);
                        } else {
                            assert(self.notif_handles@[k - 1] == h);
                        }
                    }
                    if self.notif_handles@.contains(h) {
                        let k = choose|k: int|
                            0 <= k < self.notif_handles@.len() && self.notif_handles@[k] == h;
                        if k < i {
                            assert(before[k] == h);
                        } else {
                            assert(before[k + 1] == h);
                        }
                    }
                }
            },
            None => {},
        }
        assert(self.handles() =~= old(self).handles().remove((addr, handle)));
    }

    /// Purge client, e.g. after restart: forgets all open notifications.
    pub fn purge(&mut self)
        ensures
            final(self).handles() == Set::<(AmsAddr, Handle)>::empty(),
            final(self).spec_source() == old(self).spec_source(),
    {
        self.notif_handles = Vec::new();
        assert(self.handles() =~= Set::<(AmsAddr, Handle)>::empty());
    }

    /// Forgets all open notifications and returns them, each once, for the
    /// caller to close.
    pub fn shutdown(&mut self) -> (r: Vec<(AmsAddr, Handle)>)
        ensures
            final(self).handles() == Set::<(AmsAddr, Handle)>::empty(),
            final(self).spec_source() == old(self).spec_source(),
            forall|h: (AmsAddr, Handle)| r@.contains(h) <==> old(self).handles().contains(h),
            forall|i: int, j: int| 0 <= i < j < r@.len() ==> r@[i] != r@[j],
    {
        proof {
            use_type_invariant(&*self);
        }
        let mut handles: Vec<(AmsAddr, Handle)> = Vec::new();
        core::mem::swap(&mut self.notif_handles, &mut handles);
        assert(self.handles() =~= Set::<(AmsAddr, Handle)>::empty());
        handles
    }
}

} // verus!
