//! The reader's decisions: how long a frame is, and what is to be done with
//! a frame that has been read.
//!
//! The reader itself reads from the socket in a loop.  For each frame it
//! reads the six bytes of the AMS/TCP header, asks [`Reader::frame_length`]
//! how many bytes to read in all, and hands the whole frame to
//! [`Reader::dispatch`].

use crate::bytes::{get_u16, get_u32, le_u16, le_u32, same_bytes};
use crate::netid::AmsAddr;
use crate::notif::{well_formed, Notification};
use crate::wire::{AMS_HEADER_SIZE, TCP_HEADER_SIZE};
use vstd::prelude::*;

verus! {

/// Received every time when the reader has been restarted.
#[derive(Default, Copy, Clone, Debug)]
pub struct RestartEvent {}

/// What is to be done with a frame.
pub enum Verdict {
    /// It answers the request with this invoke ID.
    Reply(u32),
    /// It is a notification.
    Notification,
    /// It is of no interest: a message of the router, a frame for another
    /// client, or a notification that is not in order.
    Skip,
    /// The stream is out of step: stop reading from this socket.
    Abort,
}

/// Whether `ams_cmd` is one of the messages of the router that a client
/// passes over: close port, open port, router note, get local NetID.
pub open spec fn is_router_message(ams_cmd: u16) -> bool {
    ams_cmd == 1 || ams_cmd == 0x1000 || ams_cmd == 0x1001 || ams_cmd == 0x1002
}

/// Whether the header of the notification frame `buf` is in order: it is a
/// request without error, and the length in front of the stamps is that of
/// what follows it, and at least 4.
pub open spec fn notification_in_order(buf: Seq<u8>) -> bool {
    &&& buf.len() >= 42
    &&& le_u16(buf.subrange(24, 26)) == 4
    &&& le_u32(buf.subrange(30, 34)) == 0
    &&& le_u32(buf.subrange(38, 42)) == buf.len() - 42
    &&& le_u32(buf.subrange(38, 42)) >= 4
}

/// What is to be done with the frame `buf`, read by the client whose address
/// has the wire form `source`.
pub open spec fn verdict(buf: Seq<u8>, source: Seq<u8>) -> Verdict {
    if buf.len() < 6 {
        Verdict::Abort
    } else if le_u16(buf.subrange(0, 2)) != 0 {
        if is_router_message(le_u16(buf.subrange(0, 2))) {
            Verdict::Skip
        } else {
            Verdict::Abort
        }
    } else if buf.len() < 38 || le_u32(buf.subrange(26, 30)) != buf.len() - 38 {
        Verdict::Abort
    } else if buf.subrange(6, 14) != source {
        Verdict::Skip
    } else if le_u16(buf.subrange(22, 24)) != 8 {
        Verdict::Reply(le_u32(buf.subrange(34, 38)))
    } else if notification_in_order(buf) && well_formed(buf) {
        Verdict::Notification
    } else {
        Verdict::Skip
    }
}

/// A frame, sorted by what is to be done with it.
pub enum Frame {
    /// A reply: it goes, whole, to the request that waits under `invoke_id`;
    /// if none does, it is dropped.
    Reply {
        /// The invoke ID of the reply.
        invoke_id: u32,
        /// The frame.
        frame: Vec<u8>,
    },
    /// A notification: it goes to the notification channel.
    Notification(Notification),
    /// Nothing is to be done.
    Skip,
    /// The reader stops reading from this socket.
    Abort,
}

impl Frame {
    /// The verdict that the frame stands for.
    pub open spec fn verdict(self) -> Verdict {
        match self {
            Frame::Reply { invoke_id, frame } => Verdict::Reply(invoke_id),
            Frame::Notification(n) => Verdict::Notification,
            Frame::Skip => Verdict::Skip,
            Frame::Abort => Verdict::Abort,
        }
    }
}

/// The state of the reader between sockets.
pub struct Reader {
    source: [u8; 8],
    first_start: bool,
}

impl Reader {
    /// The wire form of the client's own address.
    pub closed spec fn source(&self) -> Seq<u8> {
        self.source@
    }

    /// Whether the reader has not been started yet.
    pub closed spec fn fresh(&self) -> bool {
        self.first_start
    }

    /// The reader of the client with the address `source`.
    pub fn new(source: AmsAddr) -> (r: Reader)
        ensures
            r.source() == source.wire(),
            r.fresh(),
    {
        Reader { source: source.to_bytes(), first_start: true }
    }

    /// Notes that the reader starts on a new socket.  Returns whether this
    /// is a restart, which is worth a warning; the first start is not.
    pub fn start(&mut self) -> (restarted: bool)
        ensures
            restarted == !old(self).fresh(),
            !final(self).fresh(),
            final(self).source() == old(self).source(),
    {
        let restarted = !self.first_start;
        self.first_start = false;
        restarted
    }

    /// Whether the reader, done with a socket, is to ask for a new
    /// connection: only if the session is still the one it started in.
    pub fn must_reconnect(session_at_start: usize, session_now: usize) -> (r: bool)
        ensures
            r == (session_at_start == session_now),
    {
        session_at_start == session_now
    }

    /// The length of the whole frame whose AMS/TCP header is `header`: the
    /// header's six bytes and the length it announces.  `None` if `header`
    /// is shorter than six bytes or the length is more than a `usize` holds.
    pub fn frame_length(header: &[u8]) -> (r: Option<usize>)
        ensures
            r == (if header@.len() >= 6 && 6 + le_u32(header@.subrange(2, 6)) <= usize::MAX {
                Some((6 + le_u32(header@.subrange(2, 6))) as usize)
            } else {
                None::<usize>
            }),
    {
        if header.len() < TCP_HEADER_SIZE {
            return None;
        }
        let packet_length = get_u32(header, 2) as usize;
        TCP_HEADER_SIZE.checked_add(packet_length)
    }

    /// Sorts the frame `buf`.  A reply keeps the frame, untouched; a
    /// notification is parsed.
    pub fn dispatch(&self, buf: Vec<u8>) -> (r: Frame)
        ensures
            r.verdict() == verdict(buf@, self.source()),
            r matches Frame::Reply { invoke_id, frame } ==> frame@ == buf@,
            r matches Frame::Notification(n) ==> n.frame() == buf@,
    {
        let len = buf.len();
        if len < TCP_HEADER_SIZE {
            return Frame::Abort;
        }
        // Is it something other than an ADS command packet?
        let ams_cmd = get_u16(buf.as_slice(), 0);
        if ams_cmd != 0 {
            // if it's a known packet type, continue
            if ams_cmd == 1 || ams_cmd == 4096 || ams_cmd == 4097 || ams_cmd == 4098 {
                return Frame::Skip;
            }
            return Frame::Abort;
        }
        // If the header length fields aren't self-consistent, abort the connection.
        if len < AMS_HEADER_SIZE {
            return Frame::Abort;
        }
        let rest_length = get_u32(buf.as_slice(), 26) as usize;
        if rest_length != len - AMS_HEADER_SIZE {
            return Frame::Abort;
        }
        // Check that the packet is meant for us.
        if !same_bytes(&buf.as_slice()[6..14], &self.source) {
            return Frame::Skip;
        }
        // If it looks like a reply, send it back to the requesting thread,
        // it will handle further validation.
        if get_u16(buf.as_slice(), 22) != 8 {
            let invoke_id = get_u32(buf.as_slice(), 34);
            return Frame::Reply { invoke_id, frame: buf };
        }
        // Validate notification message fields.
        if rest_length < 4 {
            return Frame::Skip;
        }
        let state_flags = get_u16(buf.as_slice(), 24);
        let error_code = get_u32(buf.as_slice(), 30);
        let length = get_u32(buf.as_slice(), 38) as usize;
        if state_flags != 4 || error_code != 0 || length != rest_length - 4 || length < 4 {
            return Frame::Skip;
        }
        // Send the notification to whoever wants to receive it.
        match Notification::new(buf) {
            Ok(notif) => Frame::Notification(notif),
            Err(_) => Frame::Skip,
        }
    }
}

} // verus!
