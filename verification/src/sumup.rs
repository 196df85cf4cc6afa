//! The parts of a sum-up request: several reads, writes or notification
//! orders that travel in one exchange, each with a result of its own.

use crate::bytes::{concat, get_u32, le_u32, prefix_len, total_len, u32_bytes, u32_le, views};
use crate::client::{advance, deal, dealt_at, reply_outcome, reply_payload, Client, Command, Request};
use crate::device::Device;
use crate::errors::{ads_error, ads_result, spec_ads_result, Error, IoError};
use crate::index::{SUMUP_ADDDEVNOTE, SUMUP_DELDEVNOTE, SUMUP_READWRITE, SUMUP_READ_EX, SUMUP_WRITE};
use crate::netid::AmsAddr;
use crate::notif::{Attributes, Handle};
use crate::wire::{IndexLength, IndexLengthRW, ResultLength};
use vstd::prelude::*;

verus! {

/// Eight zero bytes: a result that has not been filled in.
pub open spec fn no_answer() -> Seq<u8> {
    Seq::new(8, |i: int| 0u8)
}

/// A single request for a write-and-read sum-up request.
pub struct WriteReadRequest<'buf> {
    req: [u8; 16],
    res: [u8; 8],
    wbuf: &'buf [u8],
    rbuf: &'buf mut [u8],
}

impl<'buf> WriteReadRequest<'buf> {
    /// The head of the request as it goes on the wire: index group, index
    /// offset, read length and write length.
    pub closed spec fn head(&self) -> Seq<u8> {
        self.req@
    }

    /// The eight bytes of the device's answer: result code and length.
    pub closed spec fn answer(&self) -> Seq<u8> {
        self.res@
    }

    /// The data to write.
    pub closed spec fn write_data(&self) -> Seq<u8> {
        self.wbuf@
    }

    /// The content of the read buffer.
    pub closed spec fn buffer(&self) -> Seq<u8> {
        self.rbuf@
    }

    /// The result code of the device for this request.
    pub open spec fn result(&self) -> u32 {
        le_u32(self.answer().subrange(0, 4))
    }

    /// The number of bytes that the device returned for this request.
    pub open spec fn returned(&self) -> u32 {
        le_u32(self.answer().subrange(4, 8))
    }

    /// Create the request with given index group, index offset and input and
    /// result buffers.  Fails with `InvalidData` exactly when the length of
    /// a buffer does not fit 32 bits.
    pub fn new(
        index_group: u32,
        index_offset: u32,
        write_buffer: &'buf [u8],
        read_buffer: &'buf mut [u8],
    ) -> (r: Result<Self, Error>)
        ensures
            r is Err <==> old(read_buffer)@.len() > u32::MAX || write_buffer@.len() > u32::MAX,
            r matches Err(e) ==> e == Error::InvalidData,
            r matches Ok(q) ==> {
                &&& q.head() == (IndexLengthRW {
                    index_group,
                    index_offset,
                    read_length: old(read_buffer)@.len() as u32,
                    write_length: write_buffer@.len() as u32,
                }).bytes()
                &&& q.answer() == no_answer()
                &&& q.write_data() == write_buffer@
                &&& q.buffer() == old(read_buffer)@
            },
    {
        let rlen = read_buffer.len();
        let wlen = write_buffer.len();
        if rlen > 0xffff_ffff || wlen > 0xffff_ffff {
            return Err(Error::InvalidData);
        }
        let head = IndexLengthRW {
            index_group,
            index_offset,
            read_length: rlen as u32,
            write_length: wlen as u32,
        };
        let res = [0u8; 8];
        assert(res@ =~= no_answer());
        Ok(Self { req: head.to_bytes(), res, wbuf: write_buffer, rbuf: read_buffer })
    }

    /// Records the device's answer for this request: its result code and
    /// the number of bytes it returned.
    pub fn set_result(&mut self, result: u32, length: u32)
        ensures
            final(self).result() == result,
            final(self).returned() == length,
            final(self).head() == old(self).head(),
            final(self).write_data() == old(self).write_data(),
            final(self).buffer() == old(self).buffer(),
    {
        let r = crate::bytes::u32_bytes(result);
        let l = crate::bytes::u32_bytes(length);
        self.res = [r[0], r[1], r[2], r[3], l[0], l[1], l[2], l[3]];
        proof {
            crate::bytes::lemma_u32_roundtrip(result);
            crate::bytes::lemma_u32_roundtrip(length);
            assert(self.res@.subrange(0, 4) =~= crate::bytes::u32_le(result));
            assert(self.res@.subrange(4, 8) =~= crate::bytes::u32_le(length));
        }
    }

    /// The whole read buffer, whatever the device returned.
    pub fn read_buffer(&self) -> (r: &[u8])
        ensures
            r@ == self.buffer(),
    {
        &*self.rbuf
    }

    /// Get the actual returned data.
    ///
    /// If the request returned an error, returns Err; so it does if the
    /// device claims to have returned more than the buffer holds.
    pub fn data(&self) -> (r: Result<&[u8], Error>)
        ensures
            match r {
                Ok(d) => {
                    &&& self.result() == 0
                    &&& self.returned() <= self.buffer().len()
                    &&& d@ == self.buffer().subrange(0, self.returned() as int)
                },
                Err(e) => if self.result() != 0 {
                    e == (Error::Ads { action: "multi-read/write data", code: self.result() })
                } else {
                    self.returned() > self.buffer().len() && e == Error::Io(IoError::BufferOverflow)
                },
            },
    {
        let res = ResultLength::from_bytes(&self.res);
        if res.result == 0 {
            let n = res.length as usize;
            if n > self.rbuf.len() {
                return Err(Error::Io(IoError::BufferOverflow));
            }
            Ok(&self.rbuf[0..n])
        } else {
            Err(ads_error("multi-read/write data", res.result))
        }
    }
}

/// The read buffers of `reqs`.
pub open spec fn buffers_of(reqs: Seq<WriteReadRequest>) -> Seq<Seq<u8>> {
    Seq::new(reqs.len(), |i: int| reqs[i].buffer())
}

/// The numbers of bytes returned for `reqs`.
pub open spec fn returned_of(reqs: Seq<WriteReadRequest>) -> Seq<nat> {
    Seq::new(reqs.len(), |i: int| reqs[i].returned() as nat)
}

/// The sum of the first `k` of `lens`.
pub open spec fn sum_before(lens: Seq<nat>, k: int) -> nat
    decreases k,
{
    if k <= 0 {
        0
    } else {
        sum_before(lens, k - 1) + lens[k - 1]
    }
}

/// What buffer `i` holds once the buffers are in order.  The device packs
/// what it returns: the data of request `i` starts where the data of the
/// requests before it ends, counted over the buffers `olds` laid end to end.
/// In order, buffer `i` starts with its own `lens[i]` bytes, and keeps what
/// it held behind them.
pub open spec fn fixed(olds: Seq<Seq<u8>>, lens: Seq<nat>, i: int) -> Seq<u8> {
    let start = sum_before(lens, i) as int;
    concat(olds).subrange(start, start + lens[i]) + olds[i].subrange(
        lens[i] as int,
        olds[i].len() as int,
    )
}

/// No request returned more than its buffer holds.
pub open spec fn fits(olds: Seq<Seq<u8>>, lens: Seq<nat>) -> bool {
    olds.len() == lens.len() && forall|i: int| 0 <= i < olds.len() ==> lens[i] <= olds[i].len()
}

/// The data returned for the first `k` requests is no longer than their
/// buffers; if it is as long, each of them filled its buffer.
pub proof fn lemma_sum_before(olds: Seq<Seq<u8>>, lens: Seq<nat>, k: int)
    requires
        fits(olds, lens),
        0 <= k <= olds.len(),
    ensures
        sum_before(lens, k) <= prefix_len(olds, k),
        sum_before(lens, k) == prefix_len(olds, k) ==> forall|m: int|
            0 <= m < k ==> lens[m] == olds[m].len() && sum_before(lens, m) == prefix_len(olds, m),
    decreases k,
{
    if k > 0 {
        lemma_sum_before(olds, lens, k - 1);
    }
}

/// A buffer whose data lies where it belongs is in order as it stands.
pub proof fn lemma_fixed_in_place(olds: Seq<Seq<u8>>, lens: Seq<nat>, i: int)
    requires
        fits(olds, lens),
        0 <= i < olds.len(),
        lens[i] == 0 || sum_before(lens, i) == prefix_len(olds, i),
    ensures
        fixed(olds, lens, i) == olds[i],
{
    let start = sum_before(lens, i);
    if lens[i] > 0 {
        assert forall|q: int| 0 <= q < lens[i] implies concat(olds)[start + q] == olds[i][q] by {
            crate::bytes::lemma_concat_index(olds, i, q);
        }
        crate::bytes::lemma_concat_index(olds, i, 0);
    } else {
        lemma_sum_before(olds, lens, i);
        crate::bytes::lemma_concat_len(olds, olds.len() as int);
        crate::bytes::lemma_prefix_len_monotonic(olds, i, olds.len() as int);
    }
    assert(fixed(olds, lens, i) =~= olds[i]);
}

/// Where every request filled its buffer, putting the buffers in order
/// changes none of them.
pub proof fn lemma_fixup_full_reads(olds: Seq<Seq<u8>>, lens: Seq<nat>)
    requires
        olds.len() == lens.len(),
        forall|i: int| 0 <= i < olds.len() ==> lens[i] == olds[i].len(),
    ensures
        forall|i: int| 0 <= i < olds.len() ==> fixed(olds, lens, i) == olds[i],
{
    assert forall|i: int| 0 <= i < olds.len() implies fixed(olds, lens, i) == olds[i] by {
        lemma_full_reads_offsets(olds, lens, i);
        lemma_fixed_in_place(olds, lens, i);
    }
}

/// Where every request filled its buffer, the data of each starts where its
/// buffer does.
pub proof fn lemma_full_reads_offsets(olds: Seq<Seq<u8>>, lens: Seq<nat>, k: int)
    requires
        olds.len() == lens.len(),
        forall|i: int| 0 <= i < olds.len() ==> lens[i] == olds[i].len(),
        0 <= k <= olds.len(),
    ensures
        sum_before(lens, k) == prefix_len(olds, k),
    decreases k,
{
    if k > 0 {
        lemma_full_reads_offsets(olds, lens, k - 1);
    }
}

/// Copies `n` bytes within the read buffers of `requests`: from offset `src`
/// of buffer `j` to offset `dst` of buffer `i`.  Within one buffer the
/// bytes move towards the end, and the ranges may overlap.
fn move_bytes(requests: &mut [WriteReadRequest], j: usize, src: usize, i: usize, dst: usize, n: usize)
    requires
        j <= i < old(requests)@.len(),
        src + n <= old(requests)@[j as int].buffer().len(),
        dst + n <= old(requests)@[i as int].buffer().len(),
        j == i ==> src <= dst,
    ensures
        final(requests)@.len() == old(requests)@.len(),
        forall|m: int|
            0 <= m < old(requests)@.len() ==> {
                &&& (#[trigger] final(requests)@[m]).head() == old(requests)@[m].head()
                &&& final(requests)@[m].answer() == old(requests)@[m].answer()
                &&& final(requests)@[m].write_data() == old(requests)@[m].write_data()
                &&& m != i ==> final(requests)@[m].buffer() == old(requests)@[m].buffer()
            },
        final(requests)@[i as int].buffer() == old(requests)@[i as int].buffer().subrange(
            0,
            dst as int,
        ) + old(requests)@[j as int].buffer().subrange(src as int, src + n) + old(
            requests,
        )@[i as int].buffer().subrange(dst + n, old(requests)@[i as int].buffer().len() as int),
{
    let ghost from = requests@[j as int].buffer();
    let ghost to = requests@[i as int].buffer();
    let from_len = requests[j].rbuf.len();
    let to_len = requests[i].rbuf.len();
    let mut t = n;
    while t > 0
        invariant
            t <= n,
            from_len == from.len(),
            to_len == to.len(),
            j <= i < requests@.len(),
            requests@.len() == old(requests)@.len(),
            from == old(requests)@[j as int].buffer(),
            to == old(requests)@[i as int].buffer(),
            src + n <= from.len(),
            dst + n <= to.len(),
            j == i ==> src <= dst,
            forall|m: int|
                0 <= m < requests@.len() ==> {
                    &&& (#[trigger] requests@[m]).head() == old(requests)@[m].head()
                    &&& requests@[m].answer() == old(requests)@[m].answer()
                    &&& requests@[m].write_data() == old(requests)@[m].write_data()
                    &&& m != i ==> requests@[m].buffer() == old(requests)@[m].buffer()
                },
            requests@[i as int].buffer().len() == to.len(),
            forall|p: int|
                0 <= p < to.len() ==> requests@[i as int].buffer()[p] == (if dst + t <= p < dst + n {
                    from[src + (p - dst)]
                } else {
                    to[p]
                }),
        decreases t,
    {
        t -= 1;
        let b = requests[j].rbuf[src + t];
        requests[i].rbuf[dst + t] = b;
    }
    assert(requests@[i as int].buffer() =~= to.subrange(0, dst as int) + from.subrange(
        src as int,
        src + n,
    ) + to.subrange(dst + n, to.len() as int));
}

/// Whether `a` and `b` are the same requests with the same answers, but for
/// what their read buffers hold.
pub open spec fn same_but_buffers(a: Seq<WriteReadRequest>, b: Seq<WriteReadRequest>) -> bool {
    &&& a.len() == b.len()
    &&& forall|m: int|
        0 <= m < a.len() ==> {
            &&& (#[trigger] a[m]).head() == b[m].head()
            &&& a[m].answer() == b[m].answer()
            &&& a[m].write_data() == b[m].write_data()
            &&& a[m].buffer().len() == b[m].buffer().len()
        }
}

/// Whether `offsets` holds, for each request, where its buffer and its data
/// start, and how long they are.
spec fn offsets_ok(offsets: Seq<(u128, u128, usize, usize)>, olds: Seq<Seq<u8>>, lens: Seq<nat>, k: int) -> bool {
    &&& offsets.len() == k
    &&& forall|m: int|
        0 <= m < k ==> {
            &&& (#[trigger] offsets[m]).0 == prefix_len(olds, m)
            &&& offsets[m].1 == sum_before(lens, m)
            &&& offsets[m].2 == olds[m].len()
            &&& offsets[m].3 == lens[m]
        }
}

/// Puts the read buffers of a write-and-read sum-up in order.
///
/// The device returns only the bytes that each request produced, one
/// request after the other, and the bytes have been written over the
/// buffers laid end to end.  So after a short read the data of the later
/// requests starts too early.  This moves the data of each request to the
/// start of its own buffer; see [`fixed`].  Nothing but the first
/// `returned()` bytes of each buffer is written to.
pub fn fixup_write_read_return_buffers(requests: &mut [WriteReadRequest])
    requires
        fits(buffers_of(old(requests)@), returned_of(old(requests)@)),
    ensures
        same_but_buffers(final(requests)@, old(requests)@),
        fits(buffers_of(final(requests)@), returned_of(final(requests)@)),
        forall|i: int|
            0 <= i < old(requests)@.len() ==> (#[trigger] final(requests)@[i]).buffer() == fixed(
                buffers_of(old(requests)@),
                returned_of(old(requests)@),
                i,
            ),
        (forall|i: int|
            0 <= i < old(requests)@.len() ==> (#[trigger] old(requests)@[i]).returned() == old(
                requests,
            )@[i].buffer().len()) ==> forall|i: int|
            0 <= i < old(requests)@.len() ==> (#[trigger] final(requests)@[i]).buffer() == old(
                requests,
            )@[i].buffer(),
{
    let n = requests.len();
    let ghost olds = buffers_of(requests@);
    let ghost lens = returned_of(requests@);
    let ghost flat = concat(olds);
    proof {
        if forall|i: int| 0 <= i < olds.len() ==> lens[i] == (#[trigger] olds[i]).len() {
            lemma_fixup_full_reads(olds, lens);
        }
    }
    // Calculate the initial (using buffer sizes) and actual (using result
    // sizes) offsets of each request.  The buffers together may be longer
    // than one buffer can be, so the offsets are kept in 128 bits.
    let mut offsets: Vec<(u128, u128, usize, usize)> = Vec::with_capacity(n);
    let mut init_cum: u128 = 0;
    let mut act_cum: u128 = 0;
    let mut k: usize = 0;
    while k < n
        invariant
            k <= n,
            n == requests@.len(),
            olds == buffers_of(requests@),
            lens == returned_of(requests@),
            fits(olds, lens),
            offsets_ok(offsets@, olds, lens, k as int),
            init_cum == prefix_len(olds, k as int),
            act_cum == sum_before(lens, k as int),
            init_cum <= k * 0xffff_ffff_ffff_ffff,
        decreases n - k,
    {
        let init = requests[k].rbuf.len();
        let act = get_u32(requests[k].res.as_slice(), 4) as usize;
        proof {
            lemma_sum_before(olds, lens, k + 1);
            lemma_sum_before(olds, lens, k as int);
            assert(k * 0xffff_ffff_ffff_ffff + 0xffff_ffff_ffff_ffff <= u128::MAX && (k + 1)
                * 0xffff_ffff_ffff_ffff == k * 0xffff_ffff_ffff_ffff + 0xffff_ffff_ffff_ffff)
                by (nonlinear_arith)
                requires
                    0 <= k <= 0xffff_ffff_ffff_ffff,
            ;
        }
        offsets.push((init_cum, act_cum, init, act));
        init_cum += init as u128;
        act_cum += act as u128;
        k += 1;
    }
    proof {
        lemma_sum_before(olds, lens, n as int);
    }

    // Go through the buffers in reverse order.
    let mut i: usize = n;
    while i > 0
        invariant_except_break
            forall|m: int| 0 <= m < i ==> (#[trigger] requests@[m]).buffer() == olds[m],
            forall|m: int|
                i <= m < n ==> (#[trigger] requests@[m]).buffer() == fixed(olds, lens, m),
        invariant
            i <= n,
            n == requests@.len(),
            n == olds.len(),
            olds == buffers_of(old(requests)@),
            lens == returned_of(old(requests)@),
            flat == concat(olds),
            fits(olds, lens),
            total_len(olds) <= u128::MAX,
            offsets_ok(offsets@, olds, lens, n as int),
            same_but_buffers(requests@, old(requests)@),
        ensures
            forall|m: int| 0 <= m < n ==> (#[trigger] requests@[m]).buffer() == fixed(olds, lens, m),
        decreases i,
    {
        i -= 1;
        let my_initial = offsets[i].0;
        let my_actual = offsets[i].1;
        let size0 = offsets[i].3;
        proof {
            lemma_sum_before(olds, lens, i + 1);
            crate::bytes::lemma_prefix_len_monotonic(olds, i + 1, n as int);
        }
        if size0 == 0 {
            proof {
                lemma_fixed_in_place(olds, lens, i as int);
            }
        } else if my_initial == my_actual {
            // Offsets match, no further action required since all
            // previous buffers must be of full length too.
            proof {
                lemma_sum_before(olds, lens, i as int);
                assert forall|m: int| 0 <= m <= i implies fixed(olds, lens, m) == olds[m] by {
                    lemma_fixed_in_place(olds, lens, m);
                }
            }
            break;
        } else {
            // Check in which buffer our last byte is.
            let last = my_actual + size0 as u128;
            let mut j = i;
            while offsets[j].0 >= last
                invariant
                    j <= i < n,
                    last > 0,
                    offsets_ok(offsets@, olds, lens, n as int),
                    forall|m: int| j < m <= i ==> (#[trigger] offsets@[m]).0 >= last,
                decreases j,
            {
                j -= 1;
            }
            let mut j_end = (last - offsets[j].0) as usize;
            let mut size = size0;
            proof {
                lemma_sum_before(olds, lens, i as int);
                crate::bytes::lemma_concat_len(olds, n as int);
                if j < i {
                    assert(offsets@[j + 1].0 >= last);
                }
            }

            // Copy the required number of bytes from every buffer from j up to i.
            loop
                invariant_except_break
                    size > 0,
                    prefix_len(olds, j as int) + j_end == my_actual + size,
                    j_end <= olds[j as int].len(),
                invariant
                    j <= i < n,
                    n == requests@.len(),
                    n == olds.len(),
                    size <= size0,
                    size0 == lens[i as int],
                    my_actual == sum_before(lens, i as int),
                    my_actual <= prefix_len(olds, i as int),
                    my_actual + size0 <= total_len(olds),
                    olds == buffers_of(old(requests)@),
                    lens == returned_of(old(requests)@),
                    flat == concat(olds),
                    flat.len() == total_len(olds),
                    fits(olds, lens),
                    total_len(olds) <= u128::MAX,
                    offsets_ok(offsets@, olds, lens, n as int),
                    same_but_buffers(requests@, old(requests)@),
                    forall|m: int| 0 <= m < i ==> (#[trigger] requests@[m]).buffer() == olds[m],
                    forall|m: int|
                        i < m < n ==> (#[trigger] requests@[m]).buffer() == fixed(olds, lens, m),
                    forall|p: int|
                        0 <= p < olds[i as int].len() ==> requests@[i as int].buffer()[p] == (if size
                            <= p < size0 {
                            flat[my_actual + p]
                        } else {
                            olds[i as int][p]
                        }),
                ensures
                    size == 0,
                decreases j,
            {
                let cnt = if j_end < size {
                    j_end
                } else {
                    size
                };
                let ghost before = requests@;
                size -= cnt;
                move_bytes(requests, j, j_end - cnt, i, size, cnt);
                proof {
                    let src = j_end - cnt;
                    let cur = requests@[i as int].buffer();
                    assert forall|p: int| 0 <= p < olds[i as int].len() implies cur[p] == (if size
                        <= p < size0 {
                        flat[my_actual + p]
                    } else {
                        olds[i as int][p]
                    }) by {
                        if size <= p < size + cnt {
                            let q = src + (p - size);
                            assert(cur[p] == before[j as int].buffer()[q]);
                            assert(before[j as int].buffer()[q] == olds[j as int][q]);
                            crate::bytes::lemma_concat_index(olds, j as int, q);
                        }
                    }
                    assert forall|m: int| 0 <= m < i implies (#[trigger] requests@[m]).buffer()
                        == olds[m] by {
                        assert(before[m].buffer() == olds[m]);
                    }
                    assert forall|m: int| i < m < n implies (#[trigger] requests@[m]).buffer()
                        == fixed(olds, lens, m) by {
                        assert(before[m].buffer() == fixed(olds, lens, m));
                    }
                }
                if size == 0 {
                    break;
                }
                j -= 1;
                j_end = offsets[j].2;
            }
            proof {
                crate::bytes::lemma_concat_len(olds, n as int);
                assert(requests@[i as int].buffer() =~= fixed(olds, lens, i as int));
            }
        }
    }
}

/// A single request for a sum-up read.
pub struct ReadRequest<'buf> {
    req: [u8; 12],
    res: [u8; 8],
    rbuf: &'buf mut [u8],
}

impl<'buf> ReadRequest<'buf> {
    /// The head of the request as it goes on the wire: index group, index
    /// offset and length.
    pub closed spec fn head(&self) -> Seq<u8> {
        self.req@
    }

    /// The eight bytes of the device's answer: result code and length.
    pub closed spec fn answer(&self) -> Seq<u8> {
        self.res@
    }

    /// The content of the read buffer.
    pub closed spec fn buffer(&self) -> Seq<u8> {
        self.rbuf@
    }

    /// The result code of the device for this request.
    pub open spec fn result(&self) -> u32 {
        le_u32(self.answer().subrange(0, 4))
    }

    /// The number of bytes that the device returned for this request.
    pub open spec fn returned(&self) -> u32 {
        le_u32(self.answer().subrange(4, 8))
    }

    /// Create the request with given index group, index offset and result
    /// buffer.  Fails with `InvalidData` exactly when the length of the
    /// buffer does not fit 32 bits.
    pub fn new(index_group: u32, index_offset: u32, buffer: &'buf mut [u8]) -> (r: Result<Self, Error>)
        ensures
            r is Err <==> old(buffer)@.len() > u32::MAX,
            r matches Err(e) ==> e == Error::InvalidData,
            r matches Ok(q) ==> {
                &&& q.head() == (IndexLength {
                    index_group,
                    index_offset,
                    length: old(buffer)@.len() as u32,
                }).bytes()
                &&& q.answer() == no_answer()
                &&& q.buffer() == old(buffer)@
            },
    {
        let len = buffer.len();
        if len > 0xffff_ffff {
            return Err(Error::InvalidData);
        }
        let head = IndexLength { index_group, index_offset, length: len as u32 };
        let res = [0u8; 8];
        assert(res@ =~= no_answer());
        Ok(Self { req: head.to_bytes(), res, rbuf: buffer })
    }

    /// The whole read buffer, whatever the device returned.
    pub fn read_buffer(&self) -> (r: &[u8])
        ensures
            r@ == self.buffer(),
    {
        &*self.rbuf
    }

    /// Get the actual returned data.
    ///
    /// If the request returned an error, returns Err; so it does if the
    /// device claims to have returned more than the buffer holds.
    pub fn data(&self) -> (r: Result<&[u8], Error>)
        ensures
            match r {
                Ok(d) => {
                    &&& self.result() == 0
                    &&& self.returned() <= self.buffer().len()
                    &&& d@ == self.buffer().subrange(0, self.returned() as int)
                },
                Err(e) => if self.result() != 0 {
                    e == (Error::Ads { action: "multi-read data", code: self.result() })
                } else {
                    self.returned() > self.buffer().len() && e == Error::Io(IoError::BufferOverflow)
                },
            },
    {
        let res = ResultLength::from_bytes(&self.res);
        if res.result == 0 {
            let n = res.length as usize;
            if n > self.rbuf.len() {
                return Err(Error::Io(IoError::BufferOverflow));
            }
            Ok(&self.rbuf[0..n])
        } else {
            Err(ads_error("multi-read data", res.result))
        }
    }
}

/// A single request for a sum-up write.
pub struct WriteRequest<'buf> {
    req: [u8; 12],
    res: [u8; 4],
    wbuf: &'buf [u8],
}

impl<'buf> WriteRequest<'buf> {
    /// The head of the request as it goes on the wire: index group, index
    /// offset and length.
    pub closed spec fn head(&self) -> Seq<u8> {
        self.req@
    }

    /// The four bytes of the device's answer: the result code.
    pub closed spec fn answer(&self) -> Seq<u8> {
        self.res@
    }

    /// The data to write.
    pub closed spec fn write_data(&self) -> Seq<u8> {
        self.wbuf@
    }

    /// The result code of the device for this request.
    pub open spec fn result(&self) -> u32 {
        le_u32(self.answer())
    }

    /// Create the request with given index group, index offset and input
    /// buffer.  Fails with `InvalidData` exactly when the length of the
    /// buffer does not fit 32 bits.
    pub fn new(index_group: u32, index_offset: u32, buffer: &'buf [u8]) -> (r: Result<Self, Error>)
        ensures
            r is Err <==> buffer@.len() > u32::MAX,
            r matches Err(e) ==> e == Error::InvalidData,
            r matches Ok(q) ==> {
                &&& q.head() == (IndexLength {
                    index_group,
                    index_offset,
                    length: buffer@.len() as u32,
                }).bytes()
                &&& q.answer() == Seq::new(4, |i: int| 0u8)
                &&& q.write_data() == buffer@
            },
    {
        let len = buffer.len();
        if len > 0xffff_ffff {
            return Err(Error::InvalidData);
        }
        let head = IndexLength { index_group, index_offset, length: len as u32 };
        let res = [0u8; 4];
        assert(res@ =~= Seq::new(4, |i: int| 0u8));
        Ok(Self { req: head.to_bytes(), res, wbuf: buffer })
    }

    /// Verify that the data was successfully written.
    ///
    /// If the request returned an error, returns Err.
    pub fn ensure(&self) -> (r: Result<(), Error>)
        ensures
            r == spec_ads_result("multi-write data", self.result()),
    {
        ads_result("multi-write data", get_u32(self.res.as_slice(), 0))
    }
}

/// A single request for a sum-up order of notifications.
pub struct AddNotifRequest {
    req: [u8; 40],
    res: [u8; 8],
}

impl AddNotifRequest {
    /// The order as it goes on the wire.
    pub closed spec fn head(&self) -> Seq<u8> {
        self.req@
    }

    /// The eight bytes of the device's answer: result code and handle.
    pub closed spec fn answer(&self) -> Seq<u8> {
        self.res@
    }

    /// The result code of the device for this request.
    pub open spec fn result(&self) -> u32 {
        le_u32(self.answer().subrange(0, 4))
    }

    /// The handle that the device returned for this request.
    pub open spec fn returned(&self) -> Handle {
        le_u32(self.answer().subrange(4, 8))
    }

    /// Create the request with given index group, index offset and notification
    /// attributes.  Fails with `InvalidData` exactly when the attributes
    /// cannot go on the wire.
    pub fn new(index_group: u32, index_offset: u32, attributes: &Attributes) -> (r: Result<Self, Error>)
        ensures
            r is Err <==> !attributes.encodable(),
            r matches Err(e) ==> e == Error::InvalidData,
            r matches Ok(q) ==> {
                &&& q.head() == attributes.spec_order(index_group, index_offset).bytes()
                &&& q.answer() == no_answer()
            },
    {
        let order = match attributes.order(index_group, index_offset) {
            Ok(order) => order,
            Err(e) => {
                return Err(e);
            },
        };
        let res = [0u8; 8];
        assert(res@ =~= no_answer());
        Ok(Self { req: order.to_bytes(), res })
    }

    /// Get the returned notification handle.
    ///
    /// If the request returned an error, returns Err.
    pub fn handle(&self) -> (r: Result<Handle, Error>)
        ensures
            r == (if self.result() == 0 {
                Ok::<Handle, Error>(self.returned())
            } else {
                Err::<Handle, Error>(
                    Error::Ads { action: "multi-read/write data", code: self.result() },
                )
            }),
    {
        let res = ResultLength::from_bytes(&self.res);
        if res.result == 0 {
            Ok(res.length)
        } else {
            Err(ads_error("multi-read/write data", res.result))
        }
    }
}

/// A single request for a sum-up deletion of notifications.
pub struct DelNotifRequest {
    req: [u8; 4],
    res: [u8; 4],
}

impl DelNotifRequest {
    /// The handle to delete, as it goes on the wire.
    pub closed spec fn head(&self) -> Seq<u8> {
        self.req@
    }

    /// The four bytes of the device's answer: the result code.
    pub closed spec fn answer(&self) -> Seq<u8> {
        self.res@
    }

    /// The handle to delete.
    pub open spec fn spec_handle(&self) -> Handle {
        le_u32(self.head())
    }

    /// The result code of the device for this request.
    pub open spec fn result(&self) -> u32 {
        le_u32(self.answer())
    }

    /// Create the request to delete the notification `handle`.
    pub fn new(handle: Handle) -> (r: Self)
        ensures
            r.head() == u32_le(handle),
            r.spec_handle() == handle,
            r.answer() == Seq::new(4, |i: int| 0u8),
    {
        let res = [0u8; 4];
        assert(res@ =~= Seq::new(4, |i: int| 0u8));
        proof {
            crate::bytes::lemma_u32_roundtrip(handle);
        }
        Self { req: u32_bytes(handle), res }
    }

    /// Verify that the handle was successfully deleted.
    ///
    /// If the request returned an error, returns Err.
    pub fn ensure(&self) -> (r: Result<(), Error>)
        ensures
            r == spec_ads_result("multi-read/write data", self.result()),
    {
        ads_result("multi-read/write data", get_u32(self.res.as_slice(), 0))
    }
}

/// The heads of the read requests `reqs`.
pub open spec fn read_heads(reqs: Seq<ReadRequest>) -> Seq<Seq<u8>> {
    Seq::new(reqs.len(), |i: int| reqs[i].head())
}

/// The read buffers of the read requests `reqs`.
pub open spec fn read_buffers(reqs: Seq<ReadRequest>) -> Seq<Seq<u8>> {
    Seq::new(reqs.len(), |i: int| reqs[i].buffer())
}

/// The heads of the write requests `reqs`.
pub open spec fn write_heads(reqs: Seq<WriteRequest>) -> Seq<Seq<u8>> {
    Seq::new(reqs.len(), |i: int| reqs[i].head())
}

/// The data of the write requests `reqs`.
pub open spec fn write_buffers(reqs: Seq<WriteRequest>) -> Seq<Seq<u8>> {
    Seq::new(reqs.len(), |i: int| reqs[i].write_data())
}

/// The heads of the write-and-read requests `reqs`.
pub open spec fn write_read_heads(reqs: Seq<WriteReadRequest>) -> Seq<Seq<u8>> {
    Seq::new(reqs.len(), |i: int| reqs[i].head())
}

/// The data to write of the write-and-read requests `reqs`.
pub open spec fn write_read_data(reqs: Seq<WriteReadRequest>) -> Seq<Seq<u8>> {
    Seq::new(reqs.len(), |i: int| reqs[i].write_data())
}

/// The orders of the requests `reqs`.
pub open spec fn add_heads(reqs: Seq<AddNotifRequest>) -> Seq<Seq<u8>> {
    Seq::new(reqs.len(), |i: int| reqs[i].head())
}

/// The handles of the requests `reqs`, as they go on the wire.
pub open spec fn del_heads(reqs: Seq<DelNotifRequest>) -> Seq<Seq<u8>> {
    Seq::new(reqs.len(), |i: int| reqs[i].head())
}

/// The head of a sum-up request of `n` parts.
pub open spec fn sumup_head(index_group: u32, n: nat, read_len: nat, write_len: nat) -> Seq<u8> {
    (IndexLengthRW {
        index_group,
        index_offset: n as u32,
        read_length: read_len as u32,
        write_length: write_len as u32,
    }).bytes()
}

/// Byte strings of one length `width` are together as long as their number
/// times `width`.
pub proof fn lemma_uniform_len(bufs: Seq<Seq<u8>>, width: nat, k: int)
    requires
        0 <= k <= bufs.len(),
        forall|i: int| 0 <= i < bufs.len() ==> (#[trigger] bufs[i]).len() == width,
    ensures
        prefix_len(bufs, k) == width * k,
    decreases k,
{
    if k > 0 {
        lemma_uniform_len(bufs, width, k - 1);
        assert(bufs[k - 1].len() == width);
        assert(prefix_len(bufs, k) == prefix_len(bufs, k - 1) + bufs[k - 1].len());
        assert(width * k == width * (k - 1) + width) by (nonlinear_arith);
    } else {
        assert(width * k == 0) by (nonlinear_arith)
            requires
                k == 0,
        ;
    }
}

/// The offset `x`, or the largest offset that a `usize` holds if `x` is
/// more.
pub open spec fn capped(x: int) -> usize {
    if x <= usize::MAX {
        x as usize
    } else {
        usize::MAX
    }
}

/// Dealing from a capped offset is dealing from the offset itself.
pub proof fn lemma_dealt_at_capped(payload: Seq<u8>, x: int, old: Seq<u8>)
    requires
        0 <= x,
        payload.len() <= usize::MAX,
    ensures
        dealt_at(payload, capped(x) as nat, old) == dealt_at(payload, x as nat, old),
{
    if x > usize::MAX {
        crate::client::lemma_dealt_at_beyond(payload, capped(x) as nat, x as nat, old);
    }
}

impl Device {
    /// The request that carries `head` and then the buffers of `parts`.
    fn sumup(&self, invoke_id: u32, head: &[u8], parts: &Vec<&[u8]>) -> (r: Result<Request, Error>)
        ensures
            r is Err <==> 32 + head@.len() + total_len(views(parts@)) > u32::MAX,
            r matches Err(e) ==> e == Error::InvalidData,
            r matches Ok(q) ==> self.is_request(
                q,
                Command::ReadWrite,
                invoke_id,
                head@ + concat(views(parts@)),
            ),
    {
        let mut w_buffers: Vec<&[u8]> = Vec::with_capacity(parts.len());
        w_buffers.push(head);
        let mut i: usize = 0;
        while i < parts.len()
            invariant
                i <= parts@.len(),
                w_buffers@.len() == i + 1,
                w_buffers@[0]@ == head@,
                forall|j: int| 0 <= j < i ==> (#[trigger] w_buffers@[j + 1])@ == parts@[j]@,
            decreases parts@.len() - i,
        {
            w_buffers.push(parts[i]);
            i += 1;
        }
        proof {
            let one = seq![head@];
            assert(views(w_buffers@) =~= one + views(parts@)) by {
                assert forall|j: int| 0 <= j < w_buffers@.len() implies views(w_buffers@)[j] == (one
                    + views(parts@))[j] by {
                    if j > 0 {
                        assert(w_buffers@[(j - 1) + 1]@ == parts@[j - 1]@);
                    }
                }
            }
            crate::bytes::lemma_concat_one(one);
            crate::bytes::lemma_concat_append(one, views(parts@));
        }
        Request::new(self.source(), self.addr(), Command::ReadWrite, invoke_id, w_buffers.as_slice())
    }

    /// The request to read multiple index groups/offsets with one ADS request (a
    /// "sum-up" request).  Fails with `InvalidData` exactly when a length does
    /// not fit its 32 bits.
    pub fn read_multi_request(&self, invoke_id: u32, requests: &[ReadRequest]) -> (r: Result<
        Request,
        Error,
    >)
        ensures
            ({
                let n = requests@.len();
                let read_len = 8 * n + total_len(read_buffers(requests@));
                &&& r is Err <==> read_len > u32::MAX || 48 + 12 * n > u32::MAX
                &&& r matches Err(e) ==> e == Error::InvalidData
                &&& r matches Ok(q) ==> self.is_request(
                    q,
                    Command::ReadWrite,
                    invoke_id,
                    sumup_head(SUMUP_READ_EX, n, read_len, 12 * n) + concat(read_heads(requests@)),
                )
            }),
    {
        let nreq = requests.len();
        let ghost bufs = read_buffers(requests@);
        let ghost heads = read_heads(requests@);
        let mut read_len: usize = 0;
        let mut parts: Vec<&[u8]> = Vec::with_capacity(nreq);
        let mut i: usize = 0;
        while i < nreq
            invariant
                i <= nreq == requests@.len(),
                bufs == read_buffers(requests@),
                heads == read_heads(requests@),
                read_len == 8 * i + prefix_len(bufs, i as int),
                read_len <= u32::MAX,
                parts@.len() == i,
                forall|j: int| 0 <= j < i ==> (#[trigger] parts@[j])@ == heads[j],
            decreases nreq - i,
        {
            let len = requests[i].rbuf.len();
            if len > 0xffff_ffff - 8 || read_len > 0xffff_ffff - 8 - len {
                proof {
                    crate::bytes::lemma_prefix_len_monotonic(bufs, i + 1, nreq as int);
                }
                return Err(Error::InvalidData);
            }
            read_len = read_len + 8 + len;
            parts.push(requests[i].req.as_slice());
            i += 1;
        }
        proof {
            assert(views(parts@) =~= heads);
            lemma_uniform_len(heads, 12, nreq as int);
        }
        if nreq > (0xffff_ffff - 48) / 12 {
            return Err(Error::InvalidData);
        }
        let header = IndexLengthRW {
            // using SUMUP_READ_EX_2 since would return the actual returned
            // number of bytes, and no empty bytes if the read is short,
            // but then we'd have to reshuffle the buffers
            index_group: SUMUP_READ_EX,
            index_offset: nreq as u32,
            read_length: read_len as u32,
            write_length: (12 * nreq) as u32,
        };
        let head = header.to_bytes();
        self.sumup(invoke_id, head.as_slice(), &parts)
    }

    /// What the reply to a sum-up read means.  Each request receives its
    /// answer, result code and length, and then its data, as [`dealt_at`] says:
    /// the answers lie behind the first four bytes of the user data, the
    /// data of the requests behind the answers.
    ///
    /// Only an error of the whole exchange is returned.  If the request as a
    /// whole succeeds, each single read can have returned its own error:
    /// see [`ReadRequest::data`].
    pub fn read_multi_reply(request: &Request, reply: &[u8], requests: &mut [ReadRequest]) -> (r: Result<
        (),
        Error,
    >)
        ensures
            final(requests)@.len() == old(requests)@.len(),
            forall|i: int|
                0 <= i < old(requests)@.len() ==> (#[trigger] final(requests)@[i]).head() == old(
                    requests,
                )@[i].head(),
            match reply_outcome(
                request.spec_cmd(),
                request.spec_target(),
                request.spec_invoke_id(),
                reply@,
                Some(4nat),
            ) {
                Err(e) => r == Err::<(), Error>(e) && forall|i: int|
                    0 <= i < old(requests)@.len() ==> {
                        &&& (#[trigger] final(requests)@[i]).answer() == old(requests)@[i].answer()
                        &&& final(requests)@[i].buffer() == old(requests)@[i].buffer()
                    },
                Ok(n) => r == Ok::<(), Error>(()) && forall|i: int|
                    0 <= i < old(requests)@.len() ==> {
                        &&& (#[trigger] final(requests)@[i]).answer() == dealt_at(
                            reply_payload(reply@),
                            (4 + 8 * i) as nat,
                            old(requests)@[i].answer(),
                        )
                        &&& final(requests)@[i].buffer() == dealt_at(
                            reply_payload(reply@),
                            (4 + 8 * old(requests)@.len() + prefix_len(
                                read_buffers(old(requests)@),
                                i,
                            )) as nat,
                            old(requests)@[i].buffer(),
                        )
                    },
            },
    {
        let n = match request.begin(reply, Some(4)) {
            Err(e) => {
                return Err(e);
            },
            Ok(n) => n,
        };
        let payload = &reply[42..42 + n];
        let count = requests.len();
        let ghost olds = requests@;
        let ghost bufs = read_buffers(olds);
        let mut off: usize = 4;
        let mut i: usize = 0;
        while i < count
            invariant
                i <= count == requests@.len(),
                olds.len() == count,
                payload@.len() <= usize::MAX,
                off == capped(4 + 8 * i),
                forall|m: int|
                    0 <= m < count ==> {
                        &&& (#[trigger] requests@[m]).head() == olds[m].head()
                        &&& requests@[m].buffer() == olds[m].buffer()
                        &&& requests@[m].answer() == (if m < i {
                            dealt_at(payload@, (4 + 8 * m) as nat, olds[m].answer())
                        } else {
                            olds[m].answer()
                        })
                    },
            decreases count - i,
        {
            proof {
                lemma_dealt_at_capped(payload@, 4 + 8 * i, olds[i as int].answer());
            }
            deal(payload, off, &mut requests[i].res);
            off = advance(off, 8);
            i += 1;
        }
        let mut i: usize = 0;
        while i < count
            invariant
                i <= count == requests@.len(),
                olds.len() == count,
                payload@.len() <= usize::MAX,
                bufs == read_buffers(olds),
                off == capped(4 + 8 * count + prefix_len(bufs, i as int)),
                forall|m: int|
                    0 <= m < count ==> {
                        &&& (#[trigger] requests@[m]).head() == olds[m].head()
                        &&& requests@[m].answer() == dealt_at(
                            payload@,
                            (4 + 8 * m) as nat,
                            olds[m].answer(),
                        )
                        &&& requests@[m].buffer() == (if m < i {
                            dealt_at(
                                payload@,
                                (4 + 8 * count + prefix_len(bufs, m)) as nat,
                                olds[m].buffer(),
                            )
                        } else {
                            olds[m].buffer()
                        })
                    },
            decreases count - i,
        {
            proof {
                lemma_dealt_at_capped(
                    payload@,
                    4 + 8 * count + prefix_len(bufs, i as int),
                    olds[i as int].buffer(),
                );
            }
            let len = requests[i].rbuf.len();
            deal(payload, off, requests[i].rbuf);
            off = advance(off, len);
            i += 1;
        }
        Ok(())
    }

    /// The request to write multiple index groups/offsets with one ADS request
    /// (a "sum-up" request).  Fails with `InvalidData` exactly when the frame
    /// would be longer than a 32-bit length can say.
    pub fn write_multi_request(&self, invoke_id: u32, requests: &[WriteRequest]) -> (r: Result<
        Request,
        Error,
    >)
        ensures
            ({
                let n = requests@.len();
                let write_len = 12 * n + total_len(write_buffers(requests@));
                &&& r is Err <==> 48 + write_len > u32::MAX
                &&& r matches Err(e) ==> e == Error::InvalidData
                &&& r matches Ok(q) ==> self.is_request(
                    q,
                    Command::ReadWrite,
                    invoke_id,
                    sumup_head(SUMUP_WRITE, n, 4 * n, write_len) + concat(write_heads(requests@))
                        + concat(write_buffers(requests@)),
                )
            }),
    {
        let nreq = requests.len();
        let ghost bufs = write_buffers(requests@);
        let ghost heads = write_heads(requests@);
        let mut write_len: usize = 0;
        let mut parts: Vec<&[u8]> = Vec::with_capacity(nreq);
        let mut i: usize = 0;
        while i < nreq
            invariant
                i <= nreq == requests@.len(),
                bufs == write_buffers(requests@),
                heads == write_heads(requests@),
                write_len == 12 * i + prefix_len(bufs, i as int),
                write_len <= u32::MAX - 48,
                parts@.len() == i,
                forall|j: int| 0 <= j < i ==> (#[trigger] parts@[j])@ == heads[j],
            decreases nreq - i,
        {
            let len = requests[i].wbuf.len();
            if len > 0xffff_ffff - 60 || write_len > 0xffff_ffff - 60 - len {
                proof {
                    crate::bytes::lemma_prefix_len_monotonic(bufs, i + 1, nreq as int);
                }
                return Err(Error::InvalidData);
            }
            write_len = write_len + 12 + len;
            parts.push(requests[i].req.as_slice());
            i += 1;
        }
        let mut i: usize = 0;
        while i < nreq
            invariant
                i <= nreq == requests@.len(),
                bufs == write_buffers(requests@),
                heads == write_heads(requests@),
                parts@.len() == nreq + i,
                forall|j: int| 0 <= j < nreq ==> (#[trigger] parts@[j])@ == heads[j],
                forall|j: int| 0 <= j < i ==> (#[trigger] parts@[nreq + j])@ == bufs[j],
            decreases nreq - i,
        {
            parts.push(requests[i].wbuf);
            i += 1;
        }
        proof {
            assert(views(parts@) =~= heads + bufs) by {
                assert forall|j: int| 0 <= j < parts@.len() implies views(parts@)[j] == (heads
                    + bufs)[j] by {
                    if j >= nreq {
                        assert(parts@[nreq + (j - nreq)]@ == bufs[j - nreq]);
                    }
                }
            }
            crate::bytes::lemma_concat_append(heads, bufs);
            lemma_uniform_len(heads, 12, nreq as int);
        }
        let header = IndexLengthRW {
            index_group: SUMUP_WRITE,
            index_offset: nreq as u32,
            read_length: (4 * nreq) as u32,
            write_length: write_len as u32,
        };
        let head = header.to_bytes();
        assert(head@ + concat(heads + bufs) =~= head@ + concat(heads) + concat(bufs));
        self.sumup(invoke_id, head.as_slice(), &parts)
    }

    /// What the reply to a sum-up write means.  Each request receives its
    /// result code, as [`dealt_at`] says: the result codes lie behind the
    /// first four bytes of the user data.
    ///
    /// Only an error of the whole exchange is returned.  If the request as a
    /// whole succeeds, each single write can have returned its own error:
    /// see [`WriteRequest::ensure`].
    pub fn write_multi_reply(request: &Request, reply: &[u8], requests: &mut [WriteRequest]) -> (r:
        Result<(), Error>)
        ensures
            final(requests)@.len() == old(requests)@.len(),
            forall|i: int|
                0 <= i < old(requests)@.len() ==> {
                    &&& (#[trigger] final(requests)@[i]).head() == old(requests)@[i].head()
                    &&& final(requests)@[i].write_data() == old(requests)@[i].write_data()
                },
            match reply_outcome(
                request.spec_cmd(),
                request.spec_target(),
                request.spec_invoke_id(),
                reply@,
                Some(4nat),
            ) {
                Err(e) => r == Err::<(), Error>(e) && forall|i: int|
                    0 <= i < old(requests)@.len() ==> (#[trigger] final(requests)@[i]).answer()
                        == old(requests)@[i].answer(),
                Ok(n) => r == Ok::<(), Error>(()) && forall|i: int|
                    0 <= i < old(requests)@.len() ==> (#[trigger] final(requests)@[i]).answer()
                        == dealt_at(
                        reply_payload(reply@),
                        (4 + 4 * i) as nat,
                        old(requests)@[i].answer(),
                    ),
            },
    {
        let n = match request.begin(reply, Some(4)) {
            Err(e) => {
                return Err(e);
            },
            Ok(n) => n,
        };
        let payload = &reply[42..42 + n];
        let count = requests.len();
        let ghost olds = requests@;
        let mut off: usize = 4;
        let mut i: usize = 0;
        while i < count
            invariant
                i <= count == requests@.len(),
                olds.len() == count,
                payload@.len() <= usize::MAX,
                off == capped(4 + 4 * i),
                forall|m: int|
                    0 <= m < count ==> {
                        &&& (#[trigger] requests@[m]).head() == olds[m].head()
                        &&& requests@[m].write_data() == olds[m].write_data()
                        &&& requests@[m].answer() == (if m < i {
                            dealt_at(payload@, (4 + 4 * m) as nat, olds[m].answer())
                        } else {
                            olds[m].answer()
                        })
                    },
            decreases count - i,
        {
            proof {
                lemma_dealt_at_capped(payload@, 4 + 4 * i, olds[i as int].answer());
            }
            deal(payload, off, &mut requests[i].res);
            off = advance(off, 4);
            i += 1;
        }
        Ok(())
    }

    /// The request to write and read multiple index groups/offsets with one ADS
    /// request (a "sum-up" request).  Fails with `InvalidData` exactly when a
    /// length does not fit its 32 bits.
    pub fn write_read_multi_request(&self, invoke_id: u32, requests: &[WriteReadRequest]) -> (r:
        Result<Request, Error>)
        ensures
            ({
                let n = requests@.len();
                let read_len = 8 * n + total_len(buffers_of(requests@));
                let write_len = 16 * n + total_len(write_read_data(requests@));
                &&& r is Err <==> read_len > u32::MAX || 48 + write_len > u32::MAX
                &&& r matches Err(e) ==> e == Error::InvalidData
                &&& r matches Ok(q) ==> self.is_request(
                    q,
                    Command::ReadWrite,
                    invoke_id,
                    sumup_head(SUMUP_READWRITE, n, read_len, write_len) + concat(
                        write_read_heads(requests@),
                    ) + concat(write_read_data(requests@)),
                )
            }),
    {
        let nreq = requests.len();
        let ghost rbufs = buffers_of(requests@);
        let ghost bufs = write_read_data(requests@);
        let ghost heads = write_read_heads(requests@);
        let mut read_len: usize = 0;
        let mut i: usize = 0;
        while i < nreq
            invariant
                i <= nreq == requests@.len(),
                rbufs == buffers_of(requests@),
                read_len == 8 * i + prefix_len(rbufs, i as int),
                read_len <= u32::MAX,
            decreases nreq - i,
        {
            let len = requests[i].rbuf.len();
            if len > 0xffff_ffff - 8 || read_len > 0xffff_ffff - 8 - len {
                proof {
                    crate::bytes::lemma_prefix_len_monotonic(rbufs, i + 1, nreq as int);
                }
                return Err(Error::InvalidData);
            }
            read_len = read_len + 8 + len;
            i += 1;
        }
        let mut write_len: usize = 0;
        let mut parts: Vec<&[u8]> = Vec::with_capacity(nreq);
        let mut i: usize = 0;
        while i < nreq
            invariant
                i <= nreq == requests@.len(),
                bufs == write_read_data(requests@),
                heads == write_read_heads(requests@),
                write_len == 16 * i + prefix_len(bufs, i as int),
                write_len <= u32::MAX - 48,
                parts@.len() == i,
                forall|j: int| 0 <= j < i ==> (#[trigger] parts@[j])@ == heads[j],
            decreases nreq - i,
        {
            let len = requests[i].wbuf.len();
            if len > 0xffff_ffff - 64 || write_len > 0xffff_ffff - 64 - len {
                proof {
                    crate::bytes::lemma_prefix_len_monotonic(bufs, i + 1, nreq as int);
                }
                return Err(Error::InvalidData);
            }
            write_len = write_len + 16 + len;
            parts.push(requests[i].req.as_slice());
            i += 1;
        }
        let mut i: usize = 0;
        while i < nreq
            invariant
                i <= nreq == requests@.len(),
                bufs == write_read_data(requests@),
                heads == write_read_heads(requests@),
                parts@.len() == nreq + i,
                forall|j: int| 0 <= j < nreq ==> (#[trigger] parts@[j])@ == heads[j],
                forall|j: int| 0 <= j < i ==> (#[trigger] parts@[nreq + j])@ == bufs[j],
            decreases nreq - i,
        {
            parts.push(requests[i].wbuf);
            i += 1;
        }
        proof {
            assert(views(parts@) =~= heads + bufs) by {
                assert forall|j: int| 0 <= j < parts@.len() implies views(parts@)[j] == (heads
                    + bufs)[j] by {
                    if j >= nreq {
                        assert(parts@[nreq + (j - nreq)]@ == bufs[j - nreq]);
                    }
                }
            }
            crate::bytes::lemma_concat_append(heads, bufs);
            lemma_uniform_len(heads, 16, nreq as int);
        }
        let header = IndexLengthRW {
            index_group: SUMUP_READWRITE,
            index_offset: nreq as u32,
            read_length: read_len as u32,
            write_length: write_len as u32,
        };
        let head = header.to_bytes();
        assert(head@ + concat(heads + bufs) =~= head@ + concat(heads) + concat(bufs));
        self.sumup(invoke_id, head.as_slice(), &parts)
    }

    /// What the reply to a sum-up write-and-read means.  Each request
    /// receives its answer and its data as in a sum-up read; then the
    /// buffers are put in order, see [`fixup_write_read_return_buffers`].
    /// Where the device claims to have returned more for a request than its
    /// buffer holds, the buffers stay as they were filled, and the result is
    /// `BufferOverflow`.
    ///
    /// Else only an error of the whole exchange is returned.  If the request
    /// as a whole succeeds, each single write/read can have returned its own
    /// error: see [`WriteReadRequest::data`].
    pub fn write_read_multi_reply(
        request: &Request,
        reply: &[u8],
        requests: &mut [WriteReadRequest],
    ) -> (r: Result<(), Error>)
        ensures
            final(requests)@.len() == old(requests)@.len(),
            forall|i: int|
                0 <= i < old(requests)@.len() ==> {
                    &&& (#[trigger] final(requests)@[i]).head() == old(requests)@[i].head()
                    &&& final(requests)@[i].write_data() == old(requests)@[i].write_data()
                },
            match reply_outcome(
                request.spec_cmd(),
                request.spec_target(),
                request.spec_invoke_id(),
                reply@,
                Some(4nat),
            ) {
                Err(e) => r == Err::<(), Error>(e) && forall|i: int|
                    0 <= i < old(requests)@.len() ==> {
                        &&& (#[trigger] final(requests)@[i]).answer() == old(requests)@[i].answer()
                        &&& final(requests)@[i].buffer() == old(requests)@[i].buffer()
                    },
                Ok(n) => {
                    let answers = dealt_answers(reply_payload(reply@), answers_of(old(requests)@));
                    let filled = dealt_buffers(
                        reply_payload(reply@),
                        buffers_of(old(requests)@),
                        4 + 8 * old(requests)@.len(),
                    );
                    &&& forall|i: int|
                        0 <= i < old(requests)@.len() ==> (#[trigger] final(requests)@[i]).answer()
                            == answers[i]
                    &&& if fits(filled, lengths_in(answers)) {
                        r == Ok::<(), Error>(()) && forall|i: int|
                            0 <= i < old(requests)@.len() ==> (#[trigger] final(requests)@[i]).buffer()
                                == fixed(filled, lengths_in(answers), i)
                    } else {
                        r == Err::<(), Error>(Error::Io(IoError::BufferOverflow)) && forall|i: int|
                            0 <= i < old(requests)@.len() ==> (#[trigger] final(requests)@[i]).buffer()
                                == filled[i]
                    }
                },
            },
    {
        let n = match request.begin(reply, Some(4)) {
            Err(e) => {
                return Err(e);
            },
            Ok(n) => n,
        };
        let payload = &reply[42..42 + n];
        let count = requests.len();
        let ghost olds = requests@;
        let ghost bufs = buffers_of(olds);
        let ghost answers = dealt_answers(payload@, answers_of(olds));
        let ghost filled = dealt_buffers(payload@, bufs, (4 + 8 * count) as nat);
        let mut off: usize = 4;
        let mut i: usize = 0;
        while i < count
            invariant
                i <= count == requests@.len(),
                olds.len() == count,
                payload@.len() <= usize::MAX,
                off == capped(4 + 8 * i),
                forall|m: int|
                    0 <= m < count ==> {
                        &&& (#[trigger] requests@[m]).head() == olds[m].head()
                        &&& requests@[m].write_data() == olds[m].write_data()
                        &&& requests@[m].buffer() == olds[m].buffer()
                        &&& requests@[m].answer() == (if m < i {
                            dealt_at(payload@, (4 + 8 * m) as nat, olds[m].answer())
                        } else {
                            olds[m].answer()
                        })
                    },
            decreases count - i,
        {
            proof {
                lemma_dealt_at_capped(payload@, 4 + 8 * i, olds[i as int].answer());
            }
            deal(payload, off, &mut requests[i].res);
            off = advance(off, 8);
            i += 1;
        }
        let mut in_order = true;
        let mut i: usize = 0;
        while i < count
            invariant
                i <= count == requests@.len(),
                olds.len() == count,
                payload@.len() <= usize::MAX,
                bufs == buffers_of(olds),
                answers == dealt_answers(payload@, answers_of(olds)),
                filled == dealt_buffers(payload@, bufs, (4 + 8 * count) as nat),
                off == capped(4 + 8 * count + prefix_len(bufs, i as int)),
                in_order <==> forall|m: int|
                    0 <= m < i ==> lengths_in(answers)[m] <= (#[trigger] filled[m]).len(),
                forall|m: int|
                    0 <= m < count ==> {
                        &&& (#[trigger] requests@[m]).head() == olds[m].head()
                        &&& requests@[m].write_data() == olds[m].write_data()
                        &&& requests@[m].answer() == answers[m]
                        &&& requests@[m].buffer() == (if m < i {
                            filled[m]
                        } else {
                            olds[m].buffer()
                        })
                    },
            decreases count - i,
        {
            proof {
                lemma_dealt_at_capped(
                    payload@,
                    4 + 8 * count + prefix_len(bufs, i as int),
                    olds[i as int].buffer(),
                );
            }
            let len = requests[i].rbuf.len();
            deal(payload, off, requests[i].rbuf);
            let returned = get_u32(requests[i].res.as_slice(), 4) as usize;
            proof {
                assert(requests@[i as int].answer() == answers[i as int]);
                assert(lengths_in(answers)[i as int] == returned);
                assert(filled[i as int].len() == len);
            }
            if returned > len {
                in_order = false;
            }
            off = advance(off, len);
            i += 1;
        }
        if !in_order {
            return Err(Error::Io(IoError::BufferOverflow));
        }
        proof {
            assert(buffers_of(requests@) =~= filled);
            assert(returned_of(requests@) =~= lengths_in(answers));
        }
        // unfortunately SUMUP_READWRITE returns only the actual read bytes for each
        // request, so if there are short reads the buffers got filled wrongly
        fixup_write_read_return_buffers(requests);
        Ok(())
    }

    /// The request to add multiple notification handles.  Fails with
    /// `InvalidData` exactly when the frame would be longer than a 32-bit
    /// length can say.
    pub fn add_notification_multi_request(&self, invoke_id: u32, requests: &[AddNotifRequest]) -> (r:
        Result<Request, Error>)
        ensures
            ({
                let n = requests@.len();
                &&& r is Err <==> 48 + 40 * n > u32::MAX
                &&& r matches Err(e) ==> e == Error::InvalidData
                &&& r matches Ok(q) ==> self.is_request(
                    q,
                    Command::ReadWrite,
                    invoke_id,
                    sumup_head(SUMUP_ADDDEVNOTE, n, 8 * n, 40 * n) + concat(add_heads(requests@)),
                )
            }),
    {
        let nreq = requests.len();
        let ghost heads = add_heads(requests@);
        if nreq > (0xffff_ffff - 48) / 40 {
            return Err(Error::InvalidData);
        }
        let mut parts: Vec<&[u8]> = Vec::with_capacity(nreq);
        let mut i: usize = 0;
        while i < nreq
            invariant
                i <= nreq == requests@.len(),
                heads == add_heads(requests@),
                parts@.len() == i,
                forall|j: int| 0 <= j < i ==> (#[trigger] parts@[j])@ == heads[j],
            decreases nreq - i,
        {
            parts.push(requests[i].req.as_slice());
            i += 1;
        }
        proof {
            assert(views(parts@) =~= heads);
            lemma_uniform_len(heads, 40, nreq as int);
        }
        let header = IndexLengthRW {
            index_group: SUMUP_ADDDEVNOTE,
            index_offset: nreq as u32,
            read_length: (8 * nreq) as u32,
            write_length: (40 * nreq) as u32,
        };
        let head = header.to_bytes();
        self.sumup(invoke_id, head.as_slice(), &parts)
    }

    /// What the reply to a sum-up order of notifications means.  Each
    /// request receives its answer, result code and handle, as [`dealt_at`]
    /// says; the client keeps the handle of each request that succeeded.
    ///
    /// Only an error of the whole exchange is returned.  If the request as a
    /// whole succeeds, each single order can have returned its own error:
    /// see [`AddNotifRequest::handle`].
    pub fn add_notification_multi_reply(
        &self,
        client: &mut Client,
        request: &Request,
        reply: &[u8],
        requests: &mut [AddNotifRequest],
    ) -> (r: Result<(), Error>)
        ensures
            final(client).spec_source() == old(client).spec_source(),
            final(requests)@.len() == old(requests)@.len(),
            forall|i: int|
                0 <= i < old(requests)@.len() ==> (#[trigger] final(requests)@[i]).head() == old(
                    requests,
                )@[i].head(),
            match reply_outcome(
                request.spec_cmd(),
                request.spec_target(),
                request.spec_invoke_id(),
                reply@,
                Some(4nat),
            ) {
                Err(e) => {
                    &&& r == Err::<(), Error>(e)
                    &&& final(client).handles() == old(client).handles()
                    &&& forall|i: int|
                        0 <= i < old(requests)@.len() ==> (#[trigger] final(requests)@[i]).answer()
                            == old(requests)@[i].answer()
                },
                Ok(n) => {
                    &&& r == Ok::<(), Error>(())
                    &&& forall|i: int|
                        0 <= i < old(requests)@.len() ==> (#[trigger] final(requests)@[i]).answer()
                            == dealt_at(
                            reply_payload(reply@),
                            (4 + 8 * i) as nat,
                            old(requests)@[i].answer(),
                        )
                    &&& final(client).handles() == with_added(
                        old(client).handles(),
                        self.spec_addr(),
                        final(requests)@,
                        old(requests)@.len() as int,
                    )
                },
            },
    {
        let n = match request.begin(reply, Some(4)) {
            Err(e) => {
                return Err(e);
            },
            Ok(n) => n,
        };
        let payload = &reply[42..42 + n];
        let count = requests.len();
        let ghost olds = requests@;
        let mut off: usize = 4;
        let mut i: usize = 0;
        while i < count
            invariant
                i <= count == requests@.len(),
                olds.len() == count,
                payload@.len() <= usize::MAX,
                off == capped(4 + 8 * i),
                forall|m: int|
                    0 <= m < count ==> {
                        &&& (#[trigger] requests@[m]).head() == olds[m].head()
                        &&& requests@[m].answer() == (if m < i {
                            dealt_at(payload@, (4 + 8 * m) as nat, olds[m].answer())
                        } else {
                            olds[m].answer()
                        })
                    },
            decreases count - i,
        {
            proof {
                lemma_dealt_at_capped(payload@, 4 + 8 * i, olds[i as int].answer());
            }
            deal(payload, off, &mut requests[i].res);
            off = advance(off, 8);
            i += 1;
        }
        let mut i: usize = 0;
        while i < count
            invariant
                i <= count == requests@.len(),
                client.spec_source() == old(client).spec_source(),
                client.handles() == with_added(
                    old(client).handles(),
                    self.spec_addr(),
                    requests@,
                    i as int,
                ),
            decreases count - i,
        {
            match requests[i].handle() {
                Ok(handle) => {
                    client.track(self.addr(), handle);
                },
                Err(_) => {},
            }
            i += 1;
        }
        Ok(())
    }

    /// The request to delete multiple notification handles.  Fails with
    /// `InvalidData` exactly when the frame would be longer than a 32-bit
    /// length can say.
    pub fn delete_notification_multi_request(&self, invoke_id: u32, requests: &[DelNotifRequest]) -> (r:
        Result<Request, Error>)
        ensures
            ({
                let n = requests@.len();
                &&& r is Err <==> 48 + 4 * n > u32::MAX
                &&& r matches Err(e) ==> e == Error::InvalidData
                &&& r matches Ok(q) ==> self.is_request(
                    q,
                    Command::ReadWrite,
                    invoke_id,
                    sumup_head(SUMUP_DELDEVNOTE, n, 4 * n, 4 * n) + concat(del_heads(requests@)),
                )
            }),
    {
        let nreq = requests.len();
        let ghost heads = del_heads(requests@);
        if nreq > (0xffff_ffff - 48) / 4 {
            return Err(Error::InvalidData);
        }
        let mut parts: Vec<&[u8]> = Vec::with_capacity(nreq);
        let mut i: usize = 0;
        while i < nreq
            invariant
                i <= nreq == requests@.len(),
                heads == del_heads(requests@),
                parts@.len() == i,
                forall|j: int| 0 <= j < i ==> (#[trigger] parts@[j])@ == heads[j],
            decreases nreq - i,
        {
            parts.push(requests[i].req.as_slice());
            i += 1;
        }
        proof {
            assert(views(parts@) =~= heads);
            lemma_uniform_len(heads, 4, nreq as int);
        }
        let header = IndexLengthRW {
            index_group: SUMUP_DELDEVNOTE,
            index_offset: nreq as u32,
            read_length: (4 * nreq) as u32,
            write_length: (4 * nreq) as u32,
        };
        let head = header.to_bytes();
        self.sumup(invoke_id, head.as_slice(), &parts)
    }

    /// What the reply to a sum-up deletion of notifications means.  Each
    /// request receives its result code, as [`dealt_at`] says; the client
    /// strikes the handle of each request that succeeded.
    ///
    /// Only an error of the whole exchange is returned.  If the request as a
    /// whole succeeds, each single deletion can have returned its own
    /// error: see [`DelNotifRequest::ensure`].
    pub fn delete_notification_multi_reply(
        &self,
        client: &mut Client,
        request: &Request,
        reply: &[u8],
        requests: &mut [DelNotifRequest],
    ) -> (r: Result<(), Error>)
        ensures
            final(client).spec_source() == old(client).spec_source(),
            final(requests)@.len() == old(requests)@.len(),
            forall|i: int|
                0 <= i < old(requests)@.len() ==> (#[trigger] final(requests)@[i]).head() == old(
                    requests,
                )@[i].head(),
            match reply_outcome(
                request.spec_cmd(),
                request.spec_target(),
                request.spec_invoke_id(),
                reply@,
                Some(4nat),
            ) {
                Err(e) => {
                    &&& r == Err::<(), Error>(e)
                    &&& final(client).handles() == old(client).handles()
                    &&& forall|i: int|
                        0 <= i < old(requests)@.len() ==> (#[trigger] final(requests)@[i]).answer()
                            == old(requests)@[i].answer()
                },
                Ok(n) => {
                    &&& r == Ok::<(), Error>(())
                    &&& forall|i: int|
                        0 <= i < old(requests)@.len() ==> (#[trigger] final(requests)@[i]).answer()
                            == dealt_at(
                            reply_payload(reply@),
                            (4 + 4 * i) as nat,
                            old(requests)@[i].answer(),
                        )
                    &&& final(client).handles() == with_deleted(
                        old(client).handles(),
                        self.spec_addr(),
                        final(requests)@,
                        old(requests)@.len() as int,
                    )
                },
            },
    {
        let n = match request.begin(reply, Some(4)) {
            Err(e) => {
                return Err(e);
            },
            Ok(n) => n,
        };
        let payload = &reply[42..42 + n];
        let count = requests.len();
        let ghost olds = requests@;
        let mut off: usize = 4;
        let mut i: usize = 0;
        while i < count
            invariant
                i <= count == requests@.len(),
                olds.len() == count,
                payload@.len() <= usize::MAX,
                off == capped(4 + 4 * i),
                forall|m: int|
                    0 <= m < count ==> {
                        &&& (#[trigger] requests@[m]).head() == olds[m].head()
                        &&& requests@[m].answer() == (if m < i {
                            dealt_at(payload@, (4 + 4 * m) as nat, olds[m].answer())
                        } else {
                            olds[m].answer()
                        })
                    },
            decreases count - i,
        {
            proof {
                lemma_dealt_at_capped(payload@, 4 + 4 * i, olds[i as int].answer());
            }
            deal(payload, off, &mut requests[i].res);
            off = advance(off, 4);
            i += 1;
        }
        let mut i: usize = 0;
        while i < count
            invariant
                i <= count == requests@.len(),
                client.spec_source() == old(client).spec_source(),
                client.handles() == with_deleted(
                    old(client).handles(),
                    self.spec_addr(),
                    requests@,
                    i as int,
                ),
            decreases count - i,
        {
            if requests[i].ensure().is_ok() {
                client.untrack(self.addr(), get_u32(requests[i].req.as_slice(), 0));
            }
            i += 1;
        }
        Ok(())
    }
}

/// The answers of `reqs`.
pub open spec fn answers_of(reqs: Seq<WriteReadRequest>) -> Seq<Seq<u8>> {
    Seq::new(reqs.len(), |i: int| reqs[i].answer())
}

/// The answers `olds` after the answers of a sum-up reply with the user
/// data `payload` have been dealt out: eight bytes each, behind the first
/// four bytes.
pub open spec fn dealt_answers(payload: Seq<u8>, olds: Seq<Seq<u8>>) -> Seq<Seq<u8>> {
    Seq::new(olds.len(), |i: int| dealt_at(payload, (4 + 8 * i) as nat, olds[i]))
}

/// The buffers `olds` after the data of a sum-up reply with the user data
/// `payload` has been dealt out over them, one after the other, from the
/// offset `base` of the user data on.
pub open spec fn dealt_buffers(payload: Seq<u8>, olds: Seq<Seq<u8>>, base: nat) -> Seq<Seq<u8>> {
    Seq::new(olds.len(), |i: int| dealt_at(payload, base + prefix_len(olds, i), olds[i]))
}

/// The lengths that the answers `answers` give.
pub open spec fn lengths_in(answers: Seq<Seq<u8>>) -> Seq<nat> {
    Seq::new(answers.len(), |i: int| le_u32(answers[i].subrange(4, 8)) as nat)
}

/// The open notifications `set` with the handles that the first `k` of
/// `reqs` were given at `addr`.
pub open spec fn with_added(set: Set<(AmsAddr, Handle)>, addr: AmsAddr, reqs: Seq<AddNotifRequest>, k: int) -> Set<
    (AmsAddr, Handle),
>
    decreases k,
{
    if k <= 0 {
        set
    } else {
        let before = with_added(set, addr, reqs, k - 1);
        if reqs[k - 1].result() == 0 {
            before.insert((addr, reqs[k - 1].returned()))
        } else {
            before
        }
    }
}

/// The open notifications `set` without the handles that the first `k` of
/// `reqs` deleted at `addr`.
pub open spec fn with_deleted(set: Set<(AmsAddr, Handle)>, addr: AmsAddr, reqs: Seq<DelNotifRequest>, k: int) -> Set<
    (AmsAddr, Handle),
>
    decreases k,
{
    if k <= 0 {
        set
    } else {
        let before = with_deleted(set, addr, reqs, k - 1);
        if reqs[k - 1].result() == 0 {
            before.remove((addr, reqs[k - 1].spec_handle()))
        } else {
            before
        }
    }
}

} // verus!
