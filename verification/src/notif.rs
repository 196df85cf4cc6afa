//! Everything to do with ADS notifications.
//!
//! A notification frame is the AMS header (38 bytes), a length (4), the
//! number of stamps (4) and then the stamps.  A stamp is a timestamp (8), the
//! number of samples (4) and then the samples; a sample is a handle (4), a
//! length (4) and that many bytes of data.

use crate::bytes::{get_u32, get_u64, le_u32, le_u64};
use crate::errors::{Error, IoError};
use crate::wire::{AddNotif, AMS_HEADER_SIZE};
use std::time::Duration;
use vstd::prelude::*;

verus! {

/// A handle to the notification; this can be used to delete the notification later.
pub type Handle = u32;

/// Nanoseconds between 1601-01-01, where Windows timestamps start, and
/// 1970-01-01, where Unix timestamps start.
pub const ANSI_EPOCH_DIFF_NANOS: u64 = 11_644_473_600_000_000_000;

/// Attributes for creating a notification.
pub struct Attributes {
    /// Length of data the notification is interested in.
    pub length: usize,
    /// When notification messages should be transmitted.
    pub trans_mode: TransmissionMode,
    /// The maximum delay between change and transmission.
    pub max_delay: Duration,
    /// The cycle time for checking for changes.
    pub cycle_time: Duration,
}

impl Attributes {
    /// Return new notification attributes.
    pub fn new(
        length: usize,
        trans_mode: TransmissionMode,
        max_delay: Duration,
        cycle_time: Duration,
    ) -> (r: Self)
        ensures
            r.length == length,
            r.trans_mode == trans_mode,
            r.max_delay == max_delay,
            r.cycle_time == cycle_time,
    {
        Self { length, trans_mode, max_delay, cycle_time }
    }

    /// Whether the attributes can go on the wire: the length and the two
    /// times, in milliseconds, each fit 32 bits.
    pub open spec fn encodable(&self) -> bool {
        &&& self.length <= u32::MAX
        &&& duration_millis(self.max_delay) <= u32::MAX
        &&& duration_millis(self.cycle_time) <= u32::MAX
    }

    /// The order for a notification with these attributes at the given index
    /// group/offset.
    pub open spec fn spec_order(&self, index_group: u32, index_offset: u32) -> AddNotif {
        AddNotif {
            index_group,
            index_offset,
            length: self.length as u32,
            trans_mode: self.trans_mode.spec_code(),
            max_delay: duration_millis(self.max_delay) as u32,
            cycle_time: duration_millis(self.cycle_time) as u32,
        }
    }

    /// The order for a notification with these attributes at the given index
    /// group/offset.  Fails with `InvalidData` exactly when the attributes
    /// cannot go on the wire.
    pub fn order(&self, index_group: u32, index_offset: u32) -> (r: Result<AddNotif, Error>)
        ensures
            r == (if self.encodable() {
                Ok::<AddNotif, Error>(self.spec_order(index_group, index_offset))
            } else {
                Err::<AddNotif, Error>(Error::InvalidData)
            }),
    {
        if self.length > 0xffff_ffff {
            return Err(Error::InvalidData);
        }
        let max_delay = as_millis(&self.max_delay);
        if max_delay > 0xffff_ffff {
            return Err(Error::InvalidData);
        }
        let cycle_time = as_millis(&self.cycle_time);
        if cycle_time > 0xffff_ffff {
            return Err(Error::InvalidData);
        }
        Ok(
            AddNotif {
                index_group,
                index_offset,
                length: self.length as u32,
                trans_mode: self.trans_mode.code(),
                max_delay: max_delay as u32,
                cycle_time: cycle_time as u32,
            },
        )
    }
}

/// The whole milliseconds that a duration holds, as `Duration::as_millis`
/// counts them.
pub uninterp spec fn duration_millis(d: Duration) -> u128;

/// `core::time::Duration::as_millis`: the whole milliseconds that `d`
/// holds.  The number depends on the duration alone.
#[verifier::external_body]
pub(crate) fn as_millis(d: &Duration) -> (r: u128)
    ensures
        r == duration_millis(*d),
{
    d.as_millis()
}

/// When notifications should be generated.
#[derive(Clone, Copy, Debug, PartialEq, Eq, Structural)]
pub enum TransmissionMode {
    /// No transmission.
    NoTrans,
    /// Notify each server cycle.
    ServerCycle,
    /// Notify when the content changes.
    ServerOnChange,
}

impl TransmissionMode {
    /// The number of the mode on the wire.
    pub open spec fn spec_code(self) -> u32 {
        match self {
            TransmissionMode::NoTrans => 0,
            TransmissionMode::ServerCycle => 3,
            TransmissionMode::ServerOnChange => 4,
        }
    }

    /// The number of the mode on the wire.
    #[verifier::when_used_as_spec(spec_code)]
    pub fn code(self) -> (r: u32)
        ensures
            r == self.spec_code(),
    {
        match self {
            TransmissionMode::NoTrans => 0,
            TransmissionMode::ServerCycle => 3,
            TransmissionMode::ServerOnChange => 4,
        }
    }
}

/// Where `n` samples that start at `pos` end; `None` if `s` ends before
/// they do.
pub open spec fn samples_end(s: Seq<u8>, pos: int, n: nat) -> Option<int>
    decreases n,
{
    if n == 0 {
        Some(pos)
    } else if pos + 8 > s.len() {
        None
    } else {
        let length = le_u32(s.subrange(pos + 4, pos + 8));
        if pos + 8 + length > s.len() {
            None
        } else {
            samples_end(s, pos + 8 + length, (n - 1) as nat)
        }
    }
}

/// Where `n` stamps that start at `pos` end; `None` if `s` ends before they
/// do.
pub open spec fn stamps_end(s: Seq<u8>, pos: int, n: nat) -> Option<int>
    decreases n,
{
    if n == 0 {
        Some(pos)
    } else if pos + 12 > s.len() {
        None
    } else {
        match samples_end(s, pos + 12, le_u32(s.subrange(pos + 8, pos + 12)) as nat) {
            None => None,
            Some(p) => stamps_end(s, p, (n - 1) as nat),
        }
    }
}

/// Whether `s` is a notification frame: it holds the number of stamps, and
/// the stamps it announces fill it exactly.
pub open spec fn well_formed(s: Seq<u8>) -> bool {
    s.len() >= 46 && stamps_end(s, 46, le_u32(s.subrange(42, 46)) as nat) == Some(s.len() as int)
}

/// The Unix time, in nanoseconds, of a Windows FILETIME of `ticks` steps of
/// 100 ns since 1601-01-01.  The conversion saturates: a tick count whose
/// nanoseconds do not fit 64 bits counts as the largest that does, and a
/// time before 1970 gives 0.
pub open spec fn unix_nanos(ticks: u64) -> u64 {
    let nanos = if ticks * 100 > u64::MAX {
        u64::MAX
    } else {
        (ticks * 100) as u64
    };
    if nanos >= ANSI_EPOCH_DIFF_NANOS {
        (nanos - ANSI_EPOCH_DIFF_NANOS) as u64
    } else {
        0
    }
}

/// What a sample holds, as plain values.
pub struct SampleData {
    /// The notification handle associated with the data.
    pub handle: Handle,
    /// Timestamp of generation, in nanoseconds since 1970-01-01.
    pub timestamp: u64,
    /// Data of the handle at the specified time.
    pub data: Seq<u8>,
}

/// The `n` samples that start at `pos`, which belong to a stamp of `ticks`.
pub open spec fn samples_at(s: Seq<u8>, pos: int, ticks: u64, n: nat) -> Seq<SampleData>
    decreases n,
{
    if n == 0 || samples_end(s, pos, n) is None {
        Seq::empty()
    } else {
        let length = le_u32(s.subrange(pos + 4, pos + 8));
        seq![
            SampleData {
                handle: le_u32(s.subrange(pos, pos + 4)),
                timestamp: unix_nanos(ticks),
                data: s.subrange(pos + 8, pos + 8 + length),
            },
        ] + samples_at(s, pos + 8 + length, ticks, (n - 1) as nat)
    }
}

/// The samples of the `n` stamps that start at `pos`.
pub open spec fn stamps_at(s: Seq<u8>, pos: int, n: nat) -> Seq<SampleData>
    decreases n,
{
    if n == 0 || stamps_end(s, pos, n) is None {
        Seq::empty()
    } else {
        let ticks = le_u64(s.subrange(pos, pos + 8));
        let count = le_u32(s.subrange(pos + 8, pos + 12)) as nat;
        samples_at(s, pos + 12, ticks, count) + stamps_at(
            s,
            samples_end(s, pos + 12, count)->0,
            (n - 1) as nat,
        )
    }
}

/// The samples of the frame `s`, in the order of the frame.
pub open spec fn frame_samples(s: Seq<u8>) -> Seq<SampleData> {
    stamps_at(s, 46, le_u32(s.subrange(42, 46)) as nat)
}

/// The number of samples that the `n` stamps starting at `pos` announce.
pub open spec fn announced(s: Seq<u8>, pos: int, n: nat) -> nat
    decreases n,
{
    if n == 0 || stamps_end(s, pos, n) is None {
        0
    } else {
        let count = le_u32(s.subrange(pos + 8, pos + 12)) as nat;
        count + announced(s, samples_end(s, pos + 12, count)->0, (n - 1) as nat)
    }
}

/// Samples that end within the frame are as many as announced, and each
/// holds as many bytes as its length field says.
pub proof fn lemma_samples_at(s: Seq<u8>, pos: int, ticks: u64, n: nat)
    requires
        0 <= pos <= s.len(),
        samples_end(s, pos, n) is Some,
    ensures
        samples_at(s, pos, ticks, n).len() == n,
        pos <= samples_end(s, pos, n)->0 <= s.len(),
        n > 0 ==> {
            let first = samples_at(s, pos, ticks, n)[0];
            &&& first.handle == le_u32(s.subrange(pos, pos + 4))
            &&& first.data.len() == le_u32(s.subrange(pos + 4, pos + 8))
            &&& first.timestamp == unix_nanos(ticks)
        },
    decreases n,
{
    if n > 0 {
        let length = le_u32(s.subrange(pos + 4, pos + 8));
        lemma_samples_at(s, pos + 8 + length, ticks, (n - 1) as nat);
    } else {
        assert(samples_end(s, pos, n) == Some(pos));
    }
}

/// Where sample `j` of the samples that start at `pos` starts.
pub open spec fn sample_pos(s: Seq<u8>, pos: int, j: nat) -> int
    decreases j,
{
    if j == 0 {
        pos
    } else {
        sample_pos(s, pos + 8 + le_u32(s.subrange(pos + 4, pos + 8)), (j - 1) as nat)
    }
}

/// The sample whose record starts at `pos`, in a stamp of `ticks`.
pub open spec fn sample_record(s: Seq<u8>, pos: int, ticks: u64) -> SampleData {
    SampleData {
        handle: le_u32(s.subrange(pos, pos + 4)),
        timestamp: unix_nanos(ticks),
        data: s.subrange(pos + 8, pos + 8 + le_u32(s.subrange(pos + 4, pos + 8))),
    }
}

/// Sample `j` of a stamp is the record `j` of the stamp in the order of the
/// frame: it has the handle of the record, as many bytes of data as the
/// record's length field says, these being the bytes behind that field, and
/// the time of the stamp.
pub proof fn lemma_sample_is_record(s: Seq<u8>, pos: int, ticks: u64, n: nat, j: nat)
    requires
        0 <= pos <= s.len(),
        samples_end(s, pos, n) is Some,
        j < n,
    ensures
        samples_at(s, pos, ticks, n)[j as int] == sample_record(s, sample_pos(s, pos, j), ticks),
        samples_at(s, pos, ticks, n)[j as int].data.len() == le_u32(
            s.subrange(sample_pos(s, pos, j) + 4, sample_pos(s, pos, j) + 8),
        ),
        0 <= sample_pos(s, pos, j),
        sample_pos(s, pos, j) + 8 + le_u32(
            s.subrange(sample_pos(s, pos, j) + 4, sample_pos(s, pos, j) + 8),
        ) <= s.len(),
    decreases j,
{
    let length = le_u32(s.subrange(pos + 4, pos + 8));
    lemma_samples_at(s, pos + 8 + length, ticks, (n - 1) as nat);
    if j > 0 {
        lemma_sample_is_record(s, pos + 8 + length, ticks, (n - 1) as nat, (j - 1) as nat);
    }
}

/// Stamps that end within the frame hold as many samples as they announce.
pub proof fn lemma_stamps_at(s: Seq<u8>, pos: int, n: nat)
    requires
        0 <= pos <= s.len(),
        stamps_end(s, pos, n) is Some,
    ensures
        stamps_at(s, pos, n).len() == announced(s, pos, n),
        pos <= stamps_end(s, pos, n)->0 <= s.len(),
    decreases n,
{
    if n > 0 {
        let ticks = le_u64(s.subrange(pos, pos + 8));
        let count = le_u32(s.subrange(pos + 8, pos + 12)) as nat;
        lemma_samples_at(s, pos + 12, ticks, count);
        lemma_stamps_at(s, samples_end(s, pos + 12, count)->0, (n - 1) as nat);
    }
}

/// A well-formed frame yields exactly the samples its stamps announce.
pub proof fn lemma_frame_sample_count(s: Seq<u8>)
    requires
        well_formed(s),
    ensures
        frame_samples(s).len() == announced(s, 46, le_u32(s.subrange(42, 46)) as nat),
{
    lemma_stamps_at(s, 46, le_u32(s.subrange(42, 46)) as nat);
}

/// `bma_ts::Timestamp::try_from_ansi_to_unix`, on the timestamp that
/// `Timestamp::from_nanos` makes of `nanos` and read back with `as_nanos`:
/// the nanoseconds less those between the two epochs, or nothing where the
/// time lies before 1970.
#[verifier::external_body]
fn ansi_to_unix(nanos: u64) -> (r: Option<u64>)
    ensures
        r == (if nanos >= ANSI_EPOCH_DIFF_NANOS {
            Some((nanos - ANSI_EPOCH_DIFF_NANOS) as u64)
        } else {
            None::<u64>
        }),
{
    match bma_ts::Timestamp::from_nanos(nanos).try_from_ansi_to_unix() {
        Ok(t) => Some(t.as_nanos() as u64),
        Err(_) => None,
    }
}

/// The Unix time, in nanoseconds, of a Windows FILETIME.
pub fn filetime_to_unix_nanos(ticks: u64) -> (r: u64)
    ensures
        r == unix_nanos(ticks),
{
    let nanos = match ticks.checked_mul(100) {
        Some(n) => n,
        None => u64::MAX,
    };
    match ansi_to_unix(nanos) {
        Some(t) => t,
        None => 0,
    }
}

/// A notification message from the ADS server.
#[derive(Debug)]
pub struct Notification {
    data: Vec<u8>,
    nstamps: u32,
}

/// A single sample in a notification message.
#[derive(Clone, Copy, Debug, PartialEq, Eq)]
pub struct Sample<'a> {
    /// The notification handle associated with the data.
    pub handle: Handle,
    /// Timestamp of generation, in nanoseconds since 1970-01-01.
    pub timestamp: u64,
    /// Data of the handle at the specified time.
    pub data: &'a [u8],
}

impl<'a> View for Sample<'a> {
    type V = SampleData;

    open spec fn view(&self) -> SampleData {
        SampleData { handle: self.handle, timestamp: self.timestamp, data: self.data@ }
    }
}

impl<'a> Sample<'a> {
    /// A sample is a view into a received frame and cannot be written to.
    pub fn write(&mut self, value: &[u8]) -> (r: Result<(), Error>)
        ensures
            r == Err::<(), Error>(Error::Unimplemented),
            *final(self) == *old(self),
    {
        Err(Error::Unimplemented)
    }
}

/// An iterator over all samples within a notification message.
pub struct SampleIter<'a> {
    data: &'a [u8],
    pos: usize,
    cur_timestamp: u64,
    stamps_left: u32,
    samples_left: u32,
}

impl Notification {
    #[verifier::type_invariant]
    spec fn inv(self) -> bool {
        well_formed(self.data@) && self.nstamps == le_u32(self.data@.subrange(42, 46))
    }

    /// The bytes of the frame.
    pub closed spec fn frame(&self) -> Seq<u8> {
        self.data@
    }

    /// The number of stamps in the frame, as kept beside the bytes.
    pub closed spec fn spec_stamps(&self) -> u32 {
        self.nstamps
    }

    /// The number of stamps in the frame.
    #[verifier::when_used_as_spec(spec_stamps)]
    pub fn stamps(&self) -> (r: u32)
        ensures
            r == self.spec_stamps(),
            r == le_u32(self.frame().subrange(42, 46)) && well_formed(self.frame()),
    {
        proof {
            use_type_invariant(self);
        }
        self.nstamps
    }

    /// Parse a notification message from an ADS message.  Succeeds exactly
    /// on a well-formed frame; any other fails as truncated.
    pub fn new(data: Vec<u8>) -> (r: Result<Self, Error>)
        ensures
            r is Ok <==> well_formed(data@),
            r matches Ok(n) ==> n.frame() == data@ && n.spec_stamps() == le_u32(
                data@.subrange(42, 46),
            ),
            r matches Err(e) ==> e == Error::Io(IoError::UnexpectedEof),
    {
        // Relevant data starts at byte 42 with the number of stamps.
        if data.len() < AMS_HEADER_SIZE + 8 {
            // header + length + #stamps
            return Err(Error::Io(IoError::UnexpectedEof));
        }
        let ghost s = data@;
        let buf = data.as_slice();
        let len = buf.len();
        let nstamps = get_u32(buf, AMS_HEADER_SIZE + 4);
        let mut pos: usize = AMS_HEADER_SIZE + 8;
        let mut stamp: u32 = 0;
        while stamp < nstamps
            invariant
                buf@ == s,
                data@ == s,
                len == s.len(),
                stamp <= nstamps,
                46 <= pos <= len,
                nstamps == le_u32(s.subrange(42, 46)),
                stamps_end(s, 46, nstamps as nat) == stamps_end(s, pos as int, (nstamps - stamp) as nat),
            decreases nstamps - stamp,
        {
            if len - pos < 12 {
                return Err(Error::Io(IoError::UnexpectedEof));
            }
            let nsamples = get_u32(buf, pos + 8);
            let ghost stamp_pos = pos;
            pos += 12;
            let mut sample: u32 = 0;
            while sample < nsamples
                invariant
                    buf@ == s,
                    data@ == s,
                    len == s.len(),
                    sample <= nsamples,
                    46 <= pos <= len,
                    46 <= stamp_pos,
                    stamp_pos + 12 <= len,
                    stamp < nstamps,
                    nstamps == le_u32(s.subrange(42, 46)),
                    nsamples == le_u32(s.subrange(stamp_pos + 8, stamp_pos + 12)),
                    stamps_end(s, 46, nstamps as nat) == stamps_end(
                        s,
                        stamp_pos as int,
                        (nstamps - stamp) as nat,
                    ),
                    samples_end(s, stamp_pos + 12, nsamples as nat) == samples_end(
                        s,
                        pos as int,
                        (nsamples - sample) as nat,
                    ),
                decreases nsamples - sample,
            {
                if len - pos < 8 {
                    return Err(Error::Io(IoError::UnexpectedEof));
                }
                let length = get_u32(buf, pos + 4) as usize;
                if len - pos - 8 < length {
                    return Err(Error::Io(IoError::UnexpectedEof));
                }
                pos += 8 + length;
                sample += 1;
            }
            stamp += 1;
        }
        if pos == len {
            Ok(Self { data, nstamps })
        } else {
            Err(Error::Io(IoError::UnexpectedEof))
        }
    }

    /// The samples of the notification, in the order of the frame.
    pub open spec fn spec_samples(&self) -> Seq<SampleData> {
        frame_samples(self.frame())
    }

    /// The bytes of the frame.
    pub fn as_bytes(&self) -> (r: &[u8])
        ensures
            r@ == self.frame(),
    {
        self.data.as_slice()
    }

    /// Gives the frame's buffer back, to be used again.
    pub fn into_bytes(self) -> (r: Vec<u8>)
        ensures
            r@ == self.frame(),
    {
        self.data
    }

    /// Return an iterator over all data samples in this notification.
    pub fn samples(&self) -> (r: SampleIter<'_>)
        ensures
            r.remaining() == self.spec_samples(),
            r.remaining() == frame_samples(self.frame()) && well_formed(self.frame()),
            r.remaining().len() == announced(
                self.frame(),
                46,
                le_u32(self.frame().subrange(42, 46)) as nat,
            ),
    {
        proof {
            use_type_invariant(self);
            lemma_frame_sample_count(self.data@);
        }
        SampleIter {
            data: self.data.as_slice(),
            pos: 46,
            cur_timestamp: 0,
            stamps_left: self.nstamps,
            samples_left: 0,
        }
    }
}

impl<'a> SampleIter<'a> {
    #[verifier::type_invariant]
    spec fn inv(self) -> bool {
        &&& self.pos <= self.data@.len()
        &&& samples_end(self.data@, self.pos as int, self.samples_left as nat) matches Some(p)
        &&& stamps_end(self.data@, p, self.stamps_left as nat) == Some(self.data@.len() as int)
    }

    /// The samples that the iterator has yet to yield.
    pub closed spec fn remaining(&self) -> Seq<SampleData> {
        samples_at(self.data@, self.pos as int, self.cur_timestamp, self.samples_left as nat)
            + stamps_at(
            self.data@,
            samples_end(self.data@, self.pos as int, self.samples_left as nat)->0,
            self.stamps_left as nat,
        )
    }

    /// The next sample, or `None` when all have been yielded.
    pub fn next(&mut self) -> (r: Option<Sample<'a>>)
        ensures
            match r {
                Some(sample) => {
                    &&& old(self).remaining().len() > 0
                    &&& sample@ == old(self).remaining()[0]
                    &&& final(self).remaining() == old(self).remaining().skip(1)
                },
                None => old(self).remaining().len() == 0 && final(self).remaining().len() == 0,
            },
    {
        proof {
            use_type_invariant(&*self);
        }
        let data = self.data;
        let mut pos = self.pos;
        let mut cur_timestamp = self.cur_timestamp;
        let mut stamps_left = self.stamps_left;
        let mut samples_left = self.samples_left;
        let ghost s = data@;
        let ghost before = self.remaining();
        let len = data.len();
        while samples_left == 0 && stamps_left > 0
            invariant
                data@ == s,
                len == s.len(),
                pos <= s.len(),
                samples_end(s, pos as int, samples_left as nat) matches Some(p) && stamps_end(
                    s,
                    p,
                    stamps_left as nat,
                ) == Some(s.len() as int),
                before == samples_at(s, pos as int, cur_timestamp, samples_left as nat) + stamps_at(
                    s,
                    samples_end(s, pos as int, samples_left as nat)->0,
                    stamps_left as nat,
                ),
            decreases stamps_left,
        {
            // Go to next stamp.
            proof {
                assert(samples_end(s, pos as int, 0) == Some(pos as int));
                assert(samples_at(s, pos as int, cur_timestamp, 0) =~= Seq::empty());
                let count = le_u32(s.subrange(pos + 8, pos + 12)) as nat;
                lemma_samples_at(s, pos + 12, le_u64(s.subrange(pos as int, pos + 8)), count);
            }
            cur_timestamp = get_u64(data, pos);
            samples_left = get_u32(data, pos + 8);
            stamps_left -= 1;
            pos += 12;
        }
        if samples_left > 0 {
            // Read more samples from the current stamp.
            assert(samples_end(s, pos as int, samples_left as nat) is Some);
            assert(pos + 8 + le_u32(s.subrange(pos + 4, pos + 8)) <= s.len());
            let handle = get_u32(data, pos);
            let length = get_u32(data, pos + 4) as usize;
            let start = pos + 8;
            let end = start + length;
            let sample = Sample {
                handle,
                data: &data[start..end],
                timestamp: filetime_to_unix_nanos(cur_timestamp),
            };
            proof {
                lemma_samples_at(s, end as int, cur_timestamp, (samples_left - 1) as nat);
                let rest = samples_at(s, end as int, cur_timestamp, (samples_left - 1) as nat)
                    + stamps_at(
                    s,
                    samples_end(s, end as int, (samples_left - 1) as nat)->0,
                    stamps_left as nat,
                );
                assert(before =~= seq![sample@] + rest);
                assert(before.skip(1) =~= rest);
            }
            *self = SampleIter {
                data,
                pos: end,
                cur_timestamp,
                stamps_left,
                samples_left: samples_left - 1,
            };
            Some(sample)
        } else {
            // Nothing else here.
            proof {
                assert(samples_at(s, pos as int, cur_timestamp, 0) =~= Seq::empty());
                assert(stamps_at(s, pos as int, 0) =~= Seq::empty());
            }
            *self = SampleIter { data, pos, cur_timestamp, stamps_left, samples_left };
            None
        }
    }
}

} // verus!
