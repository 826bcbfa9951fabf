use vstd::prelude::*;

use core::sync::atomic::{AtomicBool, AtomicUsize, Ordering};
use std::sync::Arc;

use crossbeam_channel::{Receiver, Sender};

use crate::chan::{
    clone_receiver, new_bounded, new_unbounded, receiver_queue_len, recv_msg, send_msg,
    sender_queue_len, try_recv_msg,
};
use crate::directory::Direction;
use crate::errors::{DeviceError, Disconnected, ErrorKind, Res};

verus! {

use vstd::arithmetic::div_mod::lemma_fundamental_div_mod_converse;

/// What the opener reports back over the handshake channel: the device's
/// real chunk size in frames, or why the inner thread could not open it.
pub enum DeviceState {
    Ready(usize),
    Failed(String),
}

/// The inner playback thread's half of the plumbing.
pub struct PlaySyncData {
    pub rx_dev: Receiver<Vec<u8>>,
    pub tx_cb: Sender<Disconnected>,
    pub wasapi_bufferfill_bytes: Arc<AtomicUsize>,
    pub start_signal: Arc<AtomicBool>,
    pub stop_signal: Arc<AtomicBool>,
    pub exit_signal: Arc<AtomicBool>,
}

/// The inner capture thread's half of the plumbing.
pub struct CaptSyncData {
    pub tx_dev: Sender<(u64, Vec<u8>)>,
    pub rx_prealloc: Receiver<Vec<u8>>,
    pub tx_cb: Sender<Disconnected>,
    pub wasapi_bufferfill_bytes: Arc<AtomicUsize>,
    pub start_signal: Arc<AtomicBool>,
    pub stop_signal: Arc<AtomicBool>,
    pub exit_signal: Arc<AtomicBool>,
}

/// The outer side's state for one opened device.
///
/// The ghost logs record every chunk ever handed to the playback queue
/// and every chunk ever taken from the capture queue, and the ghost
/// counters how many capture buffers were flushed and how many were
/// handed back to the prealloc queue, so that contracts can account for
/// bytes and buffers without a model of the queues themselves.
pub struct RuntimeData {
    pub device_id: String,
    pub device_name: String,
    pub dir: Direction,
    pub play_tx_dev: Option<Sender<Vec<u8>>>,
    pub play_draining_rx_dev: Option<Receiver<Vec<u8>>>,
    pub capt_rx_dev: Option<Receiver<(u64, Vec<u8>)>>,
    pub capt_tx_prealloc: Option<Sender<Vec<u8>>>,
    pub rx_disconnectreason: Receiver<Disconnected>,
    pub bufferfill_bytes: Arc<AtomicUsize>,
    pub chunk_frames: usize,
    pub frame_bytes: usize,
    pub queue_chunks: usize,
    pub leftovers: Vec<u8>,
    pub leftovers_pos: usize,
    pub start_signal: Arc<AtomicBool>,
    pub stop_signal: Arc<AtomicBool>,
    pub exit_signal: Arc<AtomicBool>,
    pub capt_last_chunk_nbr: u64,
    pub capt_flushed_cnt: usize,
    pub sent_log: Ghost<Seq<Seq<u8>>>,
    pub recv_log: Ghost<Seq<(u64, Seq<u8>)>>,
    pub flushed_total: Ghost<nat>,
    pub recycled_total: Ghost<nat>,
}

impl RuntimeData {
    /// Bytes in one device chunk.
    pub open spec fn chunk_bytes(self) -> int {
        self.chunk_frames * self.frame_bytes
    }

    /// The standing shape of the record: a one-chunk leftover buffer
    /// never full, positive chunk geometry that stays addressable, and
    /// the endpoints of exactly the record's own direction.
    pub open spec fn wf(self) -> bool {
        &&& 1 <= self.chunk_frames
        &&& 1 <= self.frame_bytes
        &&& self.chunk_frames * self.frame_bytes <= usize::MAX
        &&& self.queue_chunks * (self.chunk_frames * self.frame_bytes) <= usize::MAX
        &&& self.leftovers@.len() == self.chunk_bytes()
        &&& self.leftovers_pos < self.chunk_bytes()
        &&& (self.dir == Direction::Render ==> self.play_tx_dev is Some
            && self.play_draining_rx_dev is Some && self.capt_rx_dev is None
            && self.capt_tx_prealloc is None)
        &&& (self.dir == Direction::Capture ==> self.capt_rx_dev is Some
            && self.capt_tx_prealloc is Some && self.play_tx_dev is None
            && self.play_draining_rx_dev is None)
    }

    /// The fields the host-facing operations never change.
    pub open spec fn same_shape(self, other: RuntimeData) -> bool {
        &&& other.device_id == self.device_id
        &&& other.device_name == self.device_name
        &&& other.dir == self.dir
        &&& other.chunk_frames == self.chunk_frames
        &&& other.frame_bytes == self.frame_bytes
        &&& other.queue_chunks == self.queue_chunks
    }
}

/// The outer-side endpoints of a playback stream, waiting for the device
/// handshake to tell the real chunk size.
pub struct PlayPending {
    tx_dev: Sender<Vec<u8>>,
    draining_rx: Receiver<Vec<u8>>,
    rx_disconnectreason: Receiver<Disconnected>,
    bufferfill: Arc<AtomicUsize>,
    start_signal: Arc<AtomicBool>,
    stop_signal: Arc<AtomicBool>,
    exit_signal: Arc<AtomicBool>,
    queue_chunks: usize,
}

impl PlayPending {
    pub closed spec fn spec_queue_chunks(self) -> usize {
        self.queue_chunks
    }
}

/// The outer-side endpoints of a capture stream, waiting for the device
/// handshake.
pub struct CaptPending {
    rx_dev: Receiver<(u64, Vec<u8>)>,
    tx_prealloc: Sender<Vec<u8>>,
    rx_disconnectreason: Receiver<Disconnected>,
    bufferfill: Arc<AtomicUsize>,
    start_signal: Arc<AtomicBool>,
    stop_signal: Arc<AtomicBool>,
    exit_signal: Arc<AtomicBool>,
    queue_chunks: usize,
}

impl CaptPending {
    pub closed spec fn spec_queue_chunks(self) -> usize {
        self.queue_chunks
    }
}

/// Makes the playback plumbing: the bounded chunk queue with its draining
/// clone, the disconnect channel, the shared fill gauge and the three
/// control signals.
pub fn make_play_channels(queue_chunks: usize) -> (r: (PlayPending, PlaySyncData))
    ensures
        r.0.spec_queue_chunks() == queue_chunks,
{
    let (tx, rx) = new_bounded::<Vec<u8>>(queue_chunks);
    let draining_rx = clone_receiver(&rx);
    let (tx_cb, rx_cb) = new_unbounded::<Disconnected>();
    let bufferfill = Arc::new(AtomicUsize::new(0));
    let start_signal = Arc::new(AtomicBool::new(false));
    let stop_signal = Arc::new(AtomicBool::new(false));
    let exit_signal = Arc::new(AtomicBool::new(false));
    let pending = PlayPending {
        tx_dev: tx,
        draining_rx,
        rx_disconnectreason: rx_cb,
        bufferfill: bufferfill.clone(),
        start_signal: start_signal.clone(),
        stop_signal: stop_signal.clone(),
        exit_signal: exit_signal.clone(),
        queue_chunks,
    };
    let sync = PlaySyncData {
        rx_dev: rx,
        tx_cb,
        wasapi_bufferfill_bytes: bufferfill,
        start_signal,
        stop_signal,
        exit_signal,
    };
    (pending, sync)
}

/// Makes the capture plumbing: the bounded chunk queue, the unbounded
/// prealloc queue already filled with `2 × queue_chunks` zeroed buffers,
/// the disconnect channel and the control signals.
pub fn make_capt_channels(queue_chunks: usize, prealloc_chunk_bytes: usize) -> (r: Res<
    (CaptPending, CaptSyncData)>)
    requires
        queue_chunks <= usize::MAX / 2,
    ensures
        r matches Ok(p) ==> p.0.spec_queue_chunks() == queue_chunks,
        r matches Err(e) ==> e.kind == ErrorKind::ChannelClosed,
        queue_chunks == 0 ==> r is Ok,
{
    let (tx, rx) = new_bounded::<(u64, Vec<u8>)>(queue_chunks);
    let (tx_prealloc, rx_prealloc) = new_unbounded::<Vec<u8>>();
    let (tx_cb, rx_cb) = new_unbounded::<Disconnected>();
    let prealloc_chunks = 2 * queue_chunks;
    let mut i: usize = 0;
    while i < prealloc_chunks
        invariant
            i <= prealloc_chunks,
            prealloc_chunks == 2 * queue_chunks,
        decreases prealloc_chunks - i,
    {
        let buf: Vec<u8> = vec![0u8; prealloc_chunk_bytes];
        if send_msg(&tx_prealloc, buf).is_err() {
            return Err(
                DeviceError::with_kind(ErrorKind::ChannelClosed, "prealloc queue closed"),
            );
        }
        i = i + 1;
    }
    let bufferfill = Arc::new(AtomicUsize::new(0));
    let start_signal = Arc::new(AtomicBool::new(false));
    let stop_signal = Arc::new(AtomicBool::new(false));
    let exit_signal = Arc::new(AtomicBool::new(false));
    let pending = CaptPending {
        rx_dev: rx,
        tx_prealloc,
        rx_disconnectreason: rx_cb,
        bufferfill: bufferfill.clone(),
        start_signal: start_signal.clone(),
        stop_signal: stop_signal.clone(),
        exit_signal: exit_signal.clone(),
        queue_chunks,
    };
    let sync = CaptSyncData {
        tx_dev: tx,
        rx_prealloc,
        tx_cb,
        wasapi_bufferfill_bytes: bufferfill,
        start_signal,
        stop_signal,
        exit_signal,
    };
    Ok((pending, sync))
}

/// Finishes a playback stream once the handshake told the real chunk
/// size: the leftover buffer is one zeroed chunk, all counters start at
/// zero.
pub fn finish_play_runtime(
    device_id: String,
    device_name: String,
    pending: PlayPending,
    chunk_frames: usize,
    frame_bytes: usize,
) -> (r: RuntimeData)
    requires
        1 <= chunk_frames,
        1 <= frame_bytes,
        chunk_frames * frame_bytes <= usize::MAX,
        pending.spec_queue_chunks() * (chunk_frames * frame_bytes) <= usize::MAX,
    ensures
        r.wf(),
        r.dir == Direction::Render,
        r.device_id == device_id,
        r.device_name == device_name,
        r.chunk_frames == chunk_frames,
        r.frame_bytes == frame_bytes,
        r.queue_chunks == pending.spec_queue_chunks(),
        r.leftovers_pos == 0,
        r.capt_last_chunk_nbr == 0,
        r.capt_flushed_cnt == 0,
        r.sent_log@.len() == 0,
        r.recv_log@.len() == 0,
        r.flushed_total@ == 0,
        r.recycled_total@ == 0,
{
    proof {
        assert(1 <= chunk_frames * frame_bytes) by (nonlinear_arith)
            requires
                1 <= chunk_frames,
                1 <= frame_bytes,
        {}
    }
    let leftovers: Vec<u8> = vec![0u8; chunk_frames * frame_bytes];
    RuntimeData {
        device_id,
        device_name,
        dir: Direction::Render,
        play_tx_dev: Some(pending.tx_dev),
        play_draining_rx_dev: Some(pending.draining_rx),
        capt_rx_dev: None,
        capt_tx_prealloc: None,
        rx_disconnectreason: pending.rx_disconnectreason,
        bufferfill_bytes: pending.bufferfill,
        chunk_frames,
        frame_bytes,
        queue_chunks: pending.queue_chunks,
        leftovers,
        leftovers_pos: 0,
        start_signal: pending.start_signal,
        stop_signal: pending.stop_signal,
        exit_signal: pending.exit_signal,
        capt_last_chunk_nbr: 0,
        capt_flushed_cnt: 0,
        sent_log: Ghost(Seq::empty()),
        recv_log: Ghost(Seq::empty()),
        flushed_total: Ghost(0),
        recycled_total: Ghost(0),
    }
}

/// Finishes a capture stream once the handshake told the real chunk size.
pub fn finish_capt_runtime(
    device_id: String,
    device_name: String,
    pending: CaptPending,
    chunk_frames: usize,
    frame_bytes: usize,
) -> (r: RuntimeData)
    requires
        1 <= chunk_frames,
        1 <= frame_bytes,
        chunk_frames * frame_bytes <= usize::MAX,
        pending.spec_queue_chunks() * (chunk_frames * frame_bytes) <= usize::MAX,
    ensures
        r.wf(),
        r.dir == Direction::Capture,
        r.device_id == device_id,
        r.device_name == device_name,
        r.chunk_frames == chunk_frames,
        r.frame_bytes == frame_bytes,
        r.queue_chunks == pending.spec_queue_chunks(),
        r.leftovers_pos == 0,
        r.capt_last_chunk_nbr == 0,
        r.capt_flushed_cnt == 0,
        r.sent_log@.len() == 0,
        r.recv_log@.len() == 0,
        r.flushed_total@ == 0,
        r.recycled_total@ == 0,
{
    proof {
        assert(1 <= chunk_frames * frame_bytes) by (nonlinear_arith)
            requires
                1 <= chunk_frames,
                1 <= frame_bytes,
        {}
    }
    let leftovers: Vec<u8> = vec![0u8; chunk_frames * frame_bytes];
    RuntimeData {
        device_id,
        device_name,
        dir: Direction::Capture,
        play_tx_dev: None,
        play_draining_rx_dev: None,
        capt_rx_dev: Some(pending.rx_dev),
        capt_tx_prealloc: Some(pending.tx_prealloc),
        rx_disconnectreason: pending.rx_disconnectreason,
        bufferfill_bytes: pending.bufferfill,
        chunk_frames,
        frame_bytes,
        queue_chunks: pending.queue_chunks,
        leftovers,
        leftovers_pos: 0,
        start_signal: pending.start_signal,
        stop_signal: pending.stop_signal,
        exit_signal: pending.exit_signal,
        capt_last_chunk_nbr: 0,
        capt_flushed_cnt: 0,
        sent_log: Ghost(Seq::empty()),
        recv_log: Ghost(Seq::empty()),
        flushed_total: Ghost(0),
        recycled_total: Ghost(0),
    }
}

/// Refuses a call made for the direction the stream does not have.
fn check_direction_from_rt(rtd: &RuntimeData, dir: &Direction) -> (r: Res<()>)
    ensures
        r is Ok <==> *dir == rtd.dir,
        r matches Err(e) ==> e.kind == ErrorKind::DirectionMismatch,
{
    if *dir == rtd.dir {
        Ok(())
    } else {
        Err(DeviceError::with_kind(ErrorKind::DirectionMismatch, "wrong direction for this line"))
    }
}

/// Asks the inner thread to start the stream at its next look at the
/// signals.
pub fn do_start(rtd: &RuntimeData, dir: &Direction) -> (r: Res<()>)
    ensures
        r is Ok <==> *dir == rtd.dir,
        r matches Err(e) ==> e.kind == ErrorKind::DirectionMismatch,
{
    check_direction_from_rt(rtd, dir)?;
    rtd.start_signal.store(true, Ordering::Relaxed);
    Ok(())
}

/// Asks the inner thread to stop the stream at its next look at the
/// signals.
pub fn do_stop(rtd: &RuntimeData, dir: &Direction) -> (r: Res<()>)
    ensures
        r is Ok <==> *dir == rtd.dir,
        r matches Err(e) ==> e.kind == ErrorKind::DirectionMismatch,
{
    check_direction_from_rt(rtd, dir)?;
    rtd.stop_signal.store(true, Ordering::Relaxed);
    Ok(())
}

/// Asks the inner thread to leave its loop; the caller then owns the
/// record's release.
pub fn do_close(rtd: &RuntimeData, dir: &Direction) -> (r: Res<()>)
    ensures
        r is Ok <==> *dir == rtd.dir,
        r matches Err(e) ==> e.kind == ErrorKind::DirectionMismatch,
{
    check_direction_from_rt(rtd, dir)?;
    rtd.exit_signal.store(true, Ordering::Relaxed);
    Ok(())
}

/// Copies `len` bytes of `src` starting at `from` into `dst` starting at
/// `at`; everything else in `dst` stays.
fn copy_into(dst: &mut Vec<u8>, at: usize, src: &[u8], from: usize, len: usize)
    requires
        at + len <= old(dst)@.len(),
        from + len <= src@.len(),
    ensures
        final(dst)@.len() == old(dst)@.len(),
        forall|i: int|
            0 <= i < old(dst)@.len() && !(at <= i < at + len) ==> final(dst)@[i] == old(dst)@[i],
        forall|i: int| at <= i < at + len ==> final(dst)@[i] == src@[i - at + from],
{
    let src_len = src.len();
    let dst_len = dst.len();
    let mut k: usize = 0;
    while k < len
        invariant
            k <= len,
            at + len <= dst@.len(),
            from + len <= src@.len(),
            src_len == src@.len(),
            dst_len == old(dst)@.len(),
            dst@.len() == old(dst)@.len(),
            forall|i: int|
                0 <= i < old(dst)@.len() && !(at <= i < at + k) ==> dst@[i] == old(dst)@[i],
            forall|i: int| at <= i < at + k ==> dst@[i] == src@[i - at + from],
        decreases len - k,
    {
        let b = src[from + k];
        dst[at + k] = b;
        k = k + 1;
    }
}

/// The byte stream one write call works through: the leftovers already
/// parked, then the input window.
pub open spec fn spec_stream(leftovers: Seq<u8>, lp: int, input: Seq<u8>) -> Seq<u8> {
    leftovers.take(lp) + input
}

/// The whole chunks at the front of a byte stream, in order.
pub open spec fn spec_full_chunks(s: Seq<u8>, cb: int) -> Seq<Seq<u8>> {
    Seq::new((s.len() as int / cb) as nat, |i: int| s.subrange(i * cb, (i + 1) * cb))
}

/// What one successful write does to a playback stream: the pending
/// bytes and the input form one stream; every whole chunk of it goes to
/// the queue in order, and the tail becomes the new leftovers.
pub open spec fn spec_write_transition(pre: RuntimeData, post: RuntimeData, input: Seq<u8>) -> bool {
    let cb = pre.chunk_bytes();
    let s = spec_stream(pre.leftovers@, pre.leftovers_pos as int, input);
    &&& pre.same_shape(post)
    &&& post.sent_log@ == pre.sent_log@ + spec_full_chunks(s, cb)
    &&& post.leftovers_pos == (s.len() as int) % cb
    &&& post.leftovers@.len() == pre.leftovers@.len()
    &&& post.leftovers@.take(post.leftovers_pos as int) == s.skip(
        s.len() as int - ((s.len() as int) % cb),
    )
    &&& post.recv_log == pre.recv_log
    &&& post.flushed_total == pre.flushed_total
    &&& post.recycled_total == pre.recycled_total
    &&& post.capt_last_chunk_nbr == pre.capt_last_chunk_nbr
    &&& post.capt_flushed_cnt == pre.capt_flushed_cnt
}

/// Takes `data_len` bytes of playback audio from the host. Bytes gather
/// in the leftover buffer until a whole chunk exists; whole chunks go to
/// the inner thread, blocking while the queue is full. The call fails
/// only when the queue is closed, and never when it stays entirely
/// within the leftover buffer.
pub fn do_write(rtd: &mut RuntimeData, java_buffer: &[u8], offset: usize, data_len: usize) -> (r:
    Res<usize>)
    requires
        old(rtd).wf(),
        old(rtd).dir == Direction::Render,
        offset + data_len <= java_buffer@.len(),
    ensures
        final(rtd).wf(),
        old(rtd).same_shape(*final(rtd)),
        r matches Ok(n) ==> n == data_len && spec_write_transition(
            *old(rtd),
            *final(rtd),
            java_buffer@.subrange(offset as int, (offset + data_len) as int),
        ),
        old(rtd).leftovers_pos + data_len < old(rtd).chunk_bytes() ==> r is Ok,
        r matches Err(e) ==> e.kind == ErrorKind::ChannelClosed && final(rtd).leftovers_pos == old(rtd).leftovers_pos && final(rtd).leftovers == old(rtd).leftovers && final(rtd).capt_last_chunk_nbr == old(rtd).capt_last_chunk_nbr && final(rtd).capt_flushed_cnt == old(rtd).capt_flushed_cnt && final(rtd).recv_log == old(rtd).recv_log && final(rtd).flushed_total == old(rtd).flushed_total && final(rtd).recycled_total == old(rtd).recycled_total && (exists|j: int|
            0 <= j && final(rtd).sent_log@ == old(rtd).sent_log@ + #[trigger] spec_full_chunks(
                spec_stream(
                    old(rtd).leftovers@,
                    old(rtd).leftovers_pos as int,
                    java_buffer@.subrange(offset as int, (offset + data_len) as int),
                ),
                old(rtd).chunk_bytes(),
            ).take(j)),
{
    let ghost pre = *old(rtd);
    let ghost input = java_buffer@.subrange(offset as int, (offset + data_len) as int);
    let ghost s = spec_stream(pre.leftovers@, pre.leftovers_pos as int, input);
    let buf_len = java_buffer.len();
    let cb: usize = rtd.chunk_frames * rtd.frame_bytes;
    let lp: usize = rtd.leftovers_pos;
    proof {
        assert(s.len() == lp + data_len);
    }
    if data_len < cb - lp {
        copy_into(&mut rtd.leftovers, lp, java_buffer, offset, data_len);
        rtd.leftovers_pos = lp + data_len;
        proof {
            lemma_fundamental_div_mod_converse(s.len() as int, cb as int, 0, s.len() as int);
            assert(spec_full_chunks(s, cb as int).len() == 0);
            assert(pre.sent_log@ + spec_full_chunks(s, cb as int) =~= pre.sent_log@);
            assert(s.skip(0) == s);
            assert forall|i: int| 0 <= i < s.len() implies rtd.leftovers@.take(
                rtd.leftovers_pos as int,
            )[i] == s[i] by {
                if i < lp {
                    assert(rtd.leftovers@[i] == pre.leftovers@[i]);
                } else {
                    assert(rtd.leftovers@[i] == java_buffer@[i - lp + offset]);
                    assert(s[i] == input[i - lp]);
                }
            }
            assert(rtd.leftovers@.take(rtd.leftovers_pos as int) =~= s);
        }
        return Ok(data_len);
    }
    let mut cursor: usize = offset;
    let ghost mut k: int = 0;
    if lp > 0 {
        let mut chunk: Vec<u8> = vec![0u8; cb];
        copy_into(&mut chunk, 0, rtd.leftovers.as_slice(), 0, lp);
        copy_into(&mut chunk, lp, java_buffer, offset, cb - lp);
        proof {
            assert forall|t: int| 0 <= t < cb implies chunk@[t] == s[t] by {
                if t < lp {
                    assert(chunk@[t] == pre.leftovers@[t]);
                } else {
                    assert(chunk@[t] == java_buffer@[t - lp + offset]);
                    assert(s[t] == input[t - lp]);
                }
            }
            assert(chunk@ =~= s.subrange(0, cb as int));
        }
        if send_msg(rtd.play_tx_dev.as_ref().unwrap(), chunk).is_err() {
            proof {
                assert(pre.sent_log@ + spec_full_chunks(s, cb as int).take(0) =~= pre.sent_log@);
            }
            return Err(DeviceError::with_kind(ErrorKind::ChannelClosed, "playback queue closed"));
        }
        proof {
            assert(cb as int <= s.len());
            vstd::arithmetic::div_mod::lemma_div_non_zero(s.len() as int, cb as int);
            assert(spec_full_chunks(s, cb as int)[0] == s.subrange(0, cb as int));
        }
        rtd.sent_log = Ghost(rtd.sent_log@.push(s.subrange(0, cb as int)));
        proof {
            k = 1;
            assert(rtd.sent_log@ =~= pre.sent_log@ + spec_full_chunks(s, cb as int).take(1));
        }
        cursor = offset + (cb - lp);
    }
    while data_len - (cursor - offset) >= cb
        invariant
            pre == *old(rtd),
            pre.wf(),
            pre.dir == Direction::Render,
            lp + data_len >= cb,
            cb == pre.chunk_bytes(),
            lp == pre.leftovers_pos,
            input == java_buffer@.subrange(offset as int, (offset + data_len) as int),
            s == spec_stream(pre.leftovers@, pre.leftovers_pos as int, input),
            s.len() == lp + data_len,
            buf_len == java_buffer@.len(),
            offset + data_len <= java_buffer@.len(),
            offset <= cursor <= offset + data_len,
            lp + (cursor - offset) == k * cb,
            0 <= k,
            k * cb <= s.len(),
            rtd.sent_log@ == pre.sent_log@ + spec_full_chunks(s, cb as int).take(k),
            *rtd == (RuntimeData { sent_log: rtd.sent_log, ..pre }),
        decreases data_len - (cursor - offset),
    {
        let mut chunk: Vec<u8> = vec![0u8; cb];
        copy_into(&mut chunk, 0, java_buffer, cursor, cb);
        proof {
            assert((k + 1) * cb == k * cb + cb) by (nonlinear_arith) {}
            assert((k + 1) * cb <= s.len());
            assert forall|t: int| 0 <= t < cb implies chunk@[t] == s[k * cb + t] by {
                assert(chunk@[t] == java_buffer@[t + cursor]);
                assert(s[k * cb + t] == input[k * cb + t - lp]);
                assert(input[k * cb + t - lp] == java_buffer@[k * cb + t - lp + offset]);
            }
            assert(chunk@ =~= s.subrange(k * cb, (k + 1) * cb));
        }
        if send_msg(rtd.play_tx_dev.as_ref().unwrap(), chunk).is_err() {
            return Err(DeviceError::with_kind(ErrorKind::ChannelClosed, "playback queue closed"));
        }
        proof {
            lemma_div_at_least(s.len() as int, cb as int, k + 1);
            assert(spec_full_chunks(s, cb as int)[k] == s.subrange(k * cb, (k + 1) * cb));
        }
        rtd.sent_log = Ghost(rtd.sent_log@.push(s.subrange(k * cb, (k + 1) * cb)));
        proof {
            assert(rtd.sent_log@ =~= pre.sent_log@ + spec_full_chunks(s, cb as int).take(k + 1));
            k = k + 1;
        }
        cursor = cursor + cb;
    }
    let remaining: usize = data_len - (cursor - offset);
    if remaining > 0 {
        copy_into(&mut rtd.leftovers, 0, java_buffer, cursor, remaining);
    }
    rtd.leftovers_pos = remaining;
    proof {
        assert(s.len() == k * cb + remaining);
        lemma_fundamental_div_mod_converse(s.len() as int, cb as int, k, remaining as int);
        assert(spec_full_chunks(s, cb as int).take(k) =~= spec_full_chunks(s, cb as int));
        assert forall|i: int| 0 <= i < remaining implies rtd.leftovers@.take(remaining as int)[i]
            == s.skip(s.len() - remaining)[i] by {
            assert(rtd.leftovers@[i] == java_buffer@[i + cursor]);
            assert(s[k * cb + i] == input[k * cb + i - lp]);
            assert(input[k * cb + i - lp] == java_buffer@[k * cb + i - lp + offset]);
        }
        assert(rtd.leftovers@.take(remaining as int) =~= s.skip(s.len() - remaining));
    }
    Ok(data_len)
}

/// A stream at least `q` chunks long holds at least `q` whole chunks.
proof fn lemma_div_at_least(n: int, d: int, q: int)
    requires
        1 <= d,
        0 <= q,
        q * d <= n,
    ensures
        n / d >= q,
{
    vstd::arithmetic::div_mod::lemma_div_is_ordered(q * d, n, d);
    vstd::arithmetic::div_mod::lemma_div_by_multiple(q, d);
}

/// Copies `len` bytes of `src` starting at `from` into the slice `dst`
/// starting at `at`; everything else in `dst` stays.
fn copy_into_slice(dst: &mut [u8], at: usize, src: &[u8], from: usize, len: usize)
    requires
        at + len <= old(dst)@.len(),
        from + len <= src@.len(),
    ensures
        final(dst)@.len() == old(dst)@.len(),
        forall|i: int|
            0 <= i < old(dst)@.len() && !(at <= i < at + len) ==> final(dst)@[i] == old(dst)@[i],
        forall|i: int| at <= i < at + len ==> final(dst)@[i] == src@[i - at + from],
{
    let src_len = src.len();
    let dst_len = dst.len();
    let mut k: usize = 0;
    while k < len
        invariant
            k <= len,
            at + len <= dst@.len(),
            from + len <= src@.len(),
            src_len == src@.len(),
            dst_len == old(dst)@.len(),
            dst@.len() == old(dst)@.len(),
            forall|i: int|
                0 <= i < old(dst)@.len() && !(at <= i < at + k) ==> dst@[i] == old(dst)@[i],
            forall|i: int| at <= i < at + k ==> dst@[i] == src@[i - at + from],
        decreases len - k,
    {
        let b = src[from + k];
        dst[at + k] = b;
        k = k + 1;
    }
}

/// Moves `count` bytes of `dst` that start at `by` down to the front.
fn shift_down(dst: &mut Vec<u8>, by: usize, count: usize)
    requires
        by + count <= old(dst)@.len(),
    ensures
        final(dst)@.len() == old(dst)@.len(),
        forall|i: int| 0 <= i < count ==> final(dst)@[i] == old(dst)@[i + by],
        forall|i: int| count <= i < old(dst)@.len() ==> final(dst)@[i] == old(dst)@[i],
{
    let dst_len = dst.len();
    let mut k: usize = 0;
    while k < count
        invariant
            k <= count,
            by + count <= dst@.len(),
            dst_len == old(dst)@.len(),
            dst@.len() == old(dst)@.len(),
            forall|i: int| 0 <= i < k ==> dst@[i] == old(dst)@[i + by],
            forall|i: int| k <= i < old(dst)@.len() ==> dst@[i] == old(dst)@[i],
        decreases count - k,
    {
        let b = dst[by + k];
        dst[k] = b;
        k = k + 1;
    }
}

/// The bytes a run of received chunks carries, in arrival order.
pub open spec fn spec_concat_chunks(delta: Seq<(u64, Seq<u8>)>) -> Seq<u8>
    decreases delta.len(),
{
    if delta.len() == 0 {
        Seq::empty()
    } else {
        spec_concat_chunks(delta.drop_last()) + delta.last().1
    }
}

pub open spec fn spec_clamp_u64(x: int) -> u64 {
    if x > u64::MAX {
        u64::MAX
    } else {
        x as u64
    }
}

/// The chunk-number bookkeeping across one run of received chunks: for
/// each chunk the expected number advances by one plus the chunks flushed
/// since the last read (counted on the first chunk only), and jumps
/// forward when the received number says chunks were dropped.
pub open spec fn spec_advance_nbr(start: u64, flushed: nat, delta: Seq<(u64, Seq<u8>)>) -> u64
    decreases delta.len(),
{
    if delta.len() == 0 {
        start
    } else {
        let e = spec_clamp_u64(start + 1 + flushed);
        let e2 = if delta.first().0 > e {
            delta.first().0
        } else {
            e
        };
        spec_advance_nbr(e2, 0, delta.drop_first())
    }
}

proof fn lemma_advance_push(start: u64, flushed: nat, delta: Seq<(u64, Seq<u8>)>, x: (u64, Seq<u8>))
    ensures
        spec_advance_nbr(start, flushed, delta.push(x)) == ({
            let e0 = spec_advance_nbr(start, flushed, delta);
            let f: nat = if delta.len() == 0 {
                flushed
            } else {
                0
            };
            let e = spec_clamp_u64(e0 + 1 + f);
            if x.0 > e {
                x.0
            } else {
                e
            }
        }),
    decreases delta.len(),
{
    if delta.len() == 0 {
        assert(delta.push(x).first() == x);
        assert(delta.push(x).drop_first() =~= Seq::<(u64, Seq<u8>)>::empty());
        let e = spec_clamp_u64(start + 1 + flushed);
        let e2 = if x.0 > e {
            x.0
        } else {
            e
        };
        assert(spec_advance_nbr(e2, 0, Seq::<(u64, Seq<u8>)>::empty()) == e2);
        assert(spec_advance_nbr(start, flushed, delta.push(x)) == e2);
    } else {
        assert(delta.push(x).first() == delta.first());
        assert(delta.push(x).drop_first() =~= delta.drop_first().push(x));
        let e = spec_clamp_u64(start + 1 + flushed);
        let e2 = if delta.first().0 > e {
            delta.first().0
        } else {
            e
        };
        assert(spec_advance_nbr(start, flushed, delta) == spec_advance_nbr(
            e2,
            0,
            delta.drop_first(),
        ));
        assert(spec_advance_nbr(start, flushed, delta.push(x)) == spec_advance_nbr(
            e2,
            0,
            delta.push(x).drop_first(),
        ));
        lemma_advance_push(e2, 0, delta.drop_first(), x);
    }
}

/// A run of received chunks never moves the expected number backwards.
pub proof fn lemma_advance_monotonic(start: u64, flushed: nat, delta: Seq<(u64, Seq<u8>)>)
    ensures
        spec_advance_nbr(start, flushed, delta) >= start,
    decreases delta.len(),
{
    if delta.len() != 0 {
        let e = spec_clamp_u64(start + 1 + flushed);
        let e2 = if delta.first().0 > e {
            delta.first().0
        } else {
            e
        };
        lemma_advance_monotonic(e2, 0, delta.drop_first());
    }
}

/// What one successful read does to a capture stream: the pending
/// leftovers and the received chunks form one stream; its first `len`
/// bytes fill the output window, the rest become the new leftovers, and
/// the chunk numbers advance as their bookkeeping says.
pub open spec fn spec_read_transition(
    pre: RuntimeData,
    post: RuntimeData,
    delta: Seq<(u64, Seq<u8>)>,
    out_pre: Seq<u8>,
    out_post: Seq<u8>,
    offset: int,
    len: int,
) -> bool {
    let s = pre.leftovers@.take(pre.leftovers_pos as int) + spec_concat_chunks(delta);
    let parked = s.len() - len;
    &&& pre.same_shape(post)
    &&& s.len() >= len
    &&& parked < pre.chunk_bytes()
    &&& out_post.len() == out_pre.len()
    &&& out_post.subrange(offset, offset + len) == s.take(len)
    &&& forall|i: int|
        0 <= i < out_pre.len() && !(offset <= i < offset + len) ==> out_post[i] == out_pre[i]
    &&& post.leftovers_pos == parked
    &&& post.leftovers@.len() == pre.leftovers@.len()
    &&& post.leftovers@.take(parked as int) == s.skip(len)
    &&& post.recv_log@ == pre.recv_log@ + delta
    &&& post.capt_last_chunk_nbr == spec_advance_nbr(
        pre.capt_last_chunk_nbr,
        pre.capt_flushed_cnt as nat,
        delta,
    )
    &&& post.capt_flushed_cnt == (if delta.len() == 0 {
        pre.capt_flushed_cnt as int
    } else {
        0
    })
    &&& post.sent_log == pre.sent_log
    &&& post.flushed_total == pre.flushed_total
    &&& post.recycled_total@ == pre.recycled_total@ + delta.len()
}

/// Fills `data_len` bytes of the host's buffer with captured audio:
/// first from the leftovers of the previous read, then from whole chunks
/// taken from the inner thread, blocking while the queue is empty. The
/// unread tail of the last chunk becomes the new leftovers. A read the
/// leftovers can satisfy never touches the queue. The call fails when
/// the queue closes, or when a chunk arrives empty or larger than the
/// exclusive-mode chunk size.
pub fn do_read(rtd: &mut RuntimeData, out_buffer: &mut [u8], offset: usize, data_len: usize) -> (r:
    Res<usize>)
    requires
        old(rtd).wf(),
        old(rtd).dir == Direction::Capture,
        offset + data_len <= old(out_buffer)@.len(),
    ensures
        final(rtd).wf(),
        old(rtd).same_shape(*final(rtd)),
        final(out_buffer)@.len() == old(out_buffer)@.len(),
        r matches Ok(n) ==> n == data_len && spec_read_transition(
            *old(rtd),
            *final(rtd),
            final(rtd).recv_log@.skip(old(rtd).recv_log@.len() as int),
            old(out_buffer)@,
            final(out_buffer)@,
            offset as int,
            data_len as int,
        ),
        data_len <= old(rtd).leftovers_pos ==> r is Ok && final(rtd).recv_log == old(rtd).recv_log,
        r matches Err(e) ==> (e.kind == ErrorKind::ChannelClosed || e.kind
            == ErrorKind::ExclusiveModeAnomaly)
            && final(rtd).leftovers_pos == old(rtd).leftovers_pos
            && final(rtd).capt_last_chunk_nbr == old(rtd).capt_last_chunk_nbr
            && final(rtd).recv_log@.take(old(rtd).recv_log@.len() as int) == old(rtd).recv_log@
            && final(rtd).recycled_total@ >= old(rtd).recycled_total@,
{
    let ghost pre = *old(rtd);
    let out_len = out_buffer.len();
    let cb: usize = rtd.chunk_frames * rtd.frame_bytes;
    let lp: usize = rtd.leftovers_pos;
    let mut read_len: usize = 0;
    let mut new_lp: usize = 0;
    let mut expected: u64 = rtd.capt_last_chunk_nbr;
    let ghost mut delta: Seq<(u64, Seq<u8>)> = Seq::empty();
    let ghost mut s_sofar: Seq<u8> = pre.leftovers@.take(pre.leftovers_pos as int);
    proof {
        assert(pre.recv_log@ + delta =~= pre.recv_log@);
        assert(s_sofar + spec_concat_chunks(delta) =~= s_sofar);
    }
    if lp > 0 {
        if lp <= data_len {
            copy_into_slice(out_buffer, offset, rtd.leftovers.as_slice(), 0, lp);
            read_len = lp;
            proof {
                assert forall|i: int| 0 <= i < read_len implies out_buffer@.subrange(
                    offset as int,
                    offset + read_len,
                )[i] == s_sofar.take(read_len as int)[i] by {
                    assert(out_buffer@[offset + i] == pre.leftovers@[i]);
                }
                assert(out_buffer@.subrange(offset as int, offset + read_len) =~= s_sofar.take(
                    read_len as int,
                ));
            }
        } else {
            copy_into_slice(out_buffer, offset, rtd.leftovers.as_slice(), 0, data_len);
            shift_down(&mut rtd.leftovers, data_len, lp - data_len);
            read_len = data_len;
            new_lp = lp - data_len;
            proof {
                assert forall|i: int| 0 <= i < read_len implies out_buffer@.subrange(
                    offset as int,
                    offset + read_len,
                )[i] == s_sofar.take(read_len as int)[i] by {
                    assert(out_buffer@[offset + i] == pre.leftovers@[i]);
                }
                assert(out_buffer@.subrange(offset as int, offset + read_len) =~= s_sofar.take(
                    read_len as int,
                ));
                assert forall|i: int| 0 <= i < new_lp implies rtd.leftovers@.take(new_lp as int)[i]
                    == s_sofar.skip(read_len as int)[i] by {
                    assert(rtd.leftovers@[i] == pre.leftovers@[i + data_len]);
                }
                assert(rtd.leftovers@.take(new_lp as int) =~= s_sofar.skip(read_len as int));
            }
        }
    }
    while read_len < data_len
        invariant
            pre == *old(rtd),
            pre.wf(),
            pre.dir == Direction::Capture,
            cb == pre.chunk_bytes(),
            out_len == out_buffer@.len(),
            out_buffer@.len() == old(out_buffer)@.len(),
            offset + data_len <= out_buffer@.len(),
            read_len <= data_len,
            s_sofar == pre.leftovers@.take(pre.leftovers_pos as int) + spec_concat_chunks(delta),
            read_len == data_len || read_len == s_sofar.len(),
            read_len <= s_sofar.len(),
            data_len <= pre.leftovers_pos ==> delta.len() == 0 && rtd.recv_log == pre.recv_log,
            new_lp == s_sofar.len() - read_len,
            new_lp < cb,
            rtd.leftovers@.take(new_lp as int) == s_sofar.skip(read_len as int),
            rtd.leftovers@.len() == cb,
            out_buffer@.subrange(offset as int, offset + read_len) == s_sofar.take(read_len as int),
            forall|i: int|
                0 <= i < old(out_buffer)@.len() && !(offset <= i < offset + data_len)
                    ==> out_buffer@[i] == old(out_buffer)@[i],
            rtd.recv_log@ == pre.recv_log@ + delta,
            expected == spec_advance_nbr(
                pre.capt_last_chunk_nbr,
                pre.capt_flushed_cnt as nat,
                delta,
            ),
            rtd.capt_flushed_cnt == (if delta.len() == 0 {
                pre.capt_flushed_cnt as int
            } else {
                0
            }),
            rtd.recycled_total@ == pre.recycled_total@ + delta.len(),
            *rtd == (RuntimeData {
                capt_flushed_cnt: rtd.capt_flushed_cnt,
                recv_log: rtd.recv_log,
                leftovers: rtd.leftovers,
                recycled_total: rtd.recycled_total,
                ..pre
            }),
        decreases data_len - read_len,
    {
        match recv_msg(rtd.capt_rx_dev.as_ref().unwrap()) {
            Err(()) => {
                proof {
                    assert((pre.recv_log@ + delta).take(pre.recv_log@.len() as int)
                        =~= pre.recv_log@);
                }
                return Err(
                    DeviceError::with_kind(ErrorKind::ChannelClosed, "capture queue closed"),
                );
            },
            Ok((chunk_nbr, data)) => {
                let ghost flushed_now: nat = rtd.capt_flushed_cnt as nat;
                let fl: usize = rtd.capt_flushed_cnt;
                rtd.capt_flushed_cnt = 0;
                let e128: u128 = expected as u128 + 1 + fl as u128;
                let e_next: u64 = if e128 > u64::MAX as u128 {
                    u64::MAX
                } else {
                    e128 as u64
                };
                let ghost expected_before = expected;
                expected = if chunk_nbr > e_next {
                    chunk_nbr
                } else {
                    e_next
                };
                let ghost delta_prev = delta;
                let ghost s_prev = s_sofar;
                rtd.recv_log = Ghost(rtd.recv_log@.push((chunk_nbr, data@)));
                proof {
                    lemma_advance_push(
                        pre.capt_last_chunk_nbr,
                        pre.capt_flushed_cnt as nat,
                        delta_prev,
                        (chunk_nbr, data@),
                    );
                    delta = delta_prev.push((chunk_nbr, data@));
                    assert(delta.drop_last() =~= delta_prev);
                    assert(delta.last() == (chunk_nbr, data@));
                    assert(spec_concat_chunks(delta) == spec_concat_chunks(delta.drop_last())
                        + delta.last().1);
                    s_sofar = s_sofar + data@;
                    assert(pre.leftovers@.take(pre.leftovers_pos as int) + spec_concat_chunks(delta)
                        =~= s_sofar);
                    assert(rtd.recv_log@ =~= pre.recv_log@ + delta);
                }
                let dlen = data.len();
                if dlen == 0 || dlen > cb {
                    proof {
                        assert((pre.recv_log@ + delta).take(pre.recv_log@.len() as int)
                            =~= pre.recv_log@);
                    }
                    return Err(
                        DeviceError::with_kind(
                            ErrorKind::ExclusiveModeAnomaly,
                            "chunk size out of place in exclusive mode",
                        ),
                    );
                }
                let space = data_len - read_len;
                if dlen <= space {
                    copy_into_slice(out_buffer, offset + read_len, data.as_slice(), 0, dlen);
                    proof {
                        assert forall|i: int| 0 <= i < read_len + dlen implies #[trigger] out_buffer@.subrange(
                            offset as int,
                            offset + read_len + dlen,
                        )[i] == s_sofar.take(read_len + dlen)[i] by {
                            if i < read_len {
                                assert(out_buffer@[offset + i] == s_prev.take(read_len as int)[i]);
                            } else {
                                assert(out_buffer@[offset + i] == data@[i - read_len]);
                                assert(s_sofar[i] == data@[i - s_prev.len()]);
                            }
                        }
                        assert(out_buffer@.subrange(offset as int, offset + read_len + dlen)
                            =~= s_sofar.take(read_len + dlen));
                        assert(rtd.leftovers@.take(0) =~= s_sofar.skip(read_len + dlen));
                    }
                    read_len = read_len + dlen;
                    new_lp = 0;
                } else {
                    copy_into_slice(out_buffer, offset + read_len, data.as_slice(), 0, space);
                    let rem = dlen - space;
                    copy_into(&mut rtd.leftovers, 0, data.as_slice(), space, rem);
                    proof {
                        assert forall|i: int| 0 <= i < data_len implies out_buffer@.subrange(
                            offset as int,
                            offset + data_len,
                        )[i] == s_sofar.take(data_len as int)[i] by {
                            if i < read_len {
                                assert(out_buffer@[offset + i] == s_prev.take(read_len as int)[i]);
                            } else {
                                assert(out_buffer@[offset + i] == data@[i - read_len]);
                                assert(s_sofar[i] == data@[i - s_prev.len()]);
                            }
                        }
                        assert(out_buffer@.subrange(offset as int, offset + data_len) =~= s_sofar.take(
                            data_len as int,
                        ));
                        assert forall|i: int| 0 <= i < rem implies rtd.leftovers@.take(
                            rem as int,
                        )[i] == s_sofar.skip(data_len as int)[i] by {
                            assert(rtd.leftovers@[i] == data@[i + space]);
                            assert(s_sofar[data_len + i] == data@[data_len + i - s_prev.len()]);
                        }
                        assert(rtd.leftovers@.take(rem as int) =~= s_sofar.skip(data_len as int));
                    }
                    read_len = data_len;
                    new_lp = rem;
                }
                if send_msg(rtd.capt_tx_prealloc.as_ref().unwrap(), data).is_err() {
                    proof {
                        assert((pre.recv_log@ + delta).take(pre.recv_log@.len() as int)
                            =~= pre.recv_log@);
                    }
                    return Err(
                        DeviceError::with_kind(ErrorKind::ChannelClosed, "prealloc queue closed"),
                    );
                }
                rtd.recycled_total = Ghost((rtd.recycled_total@ + 1) as nat);
            },
        }
    }
    rtd.leftovers_pos = new_lp;
    rtd.capt_last_chunk_nbr = expected;
    proof {
        assert(final(rtd).recv_log@.skip(pre.recv_log@.len() as int) =~= delta);
        assert(final(rtd).recv_log@.take(pre.recv_log@.len() as int) =~= pre.recv_log@);
    }
    Ok(data_len)
}

/// The interthread buffer's size in bytes: every queue slot holds one
/// chunk.
pub fn do_get_buffer_bytes(rtd: &RuntimeData, dir: &Direction) -> (r: Res<usize>)
    requires
        rtd.wf(),
    ensures
        r is Ok <==> *dir == rtd.dir,
        r matches Ok(n) ==> n == rtd.queue_chunks * rtd.chunk_frames * rtd.frame_bytes,
        r matches Err(e) ==> e.kind == ErrorKind::DirectionMismatch,
{
    check_direction_from_rt(rtd, dir)?;
    proof {
        let qc = rtd.queue_chunks as int;
        let cf = rtd.chunk_frames as int;
        let fb = rtd.frame_bytes as int;
        assert((qc * cf) * fb == qc * (cf * fb) && qc * cf <= qc * (cf * fb))
            by (nonlinear_arith)
            requires
                0 <= qc,
                0 <= cf,
                1 <= fb,
        {}
    }
    Ok(rtd.queue_chunks * rtd.chunk_frames * rtd.frame_bytes)
}

pub open spec fn spec_clamp_usize(x: int) -> usize {
    if x > usize::MAX {
        usize::MAX
    } else {
        x as usize
    }
}

/// Throws away every chunk still waiting in the interthread queue. For
/// playback the chunks are dropped; for capture each drained buffer goes
/// back to the prealloc queue and the flushed count grows by the number
/// drained, so the next read can tell flushed chunks from dropped ones.
/// The device itself is never touched.
pub fn do_flush(rtd: &mut RuntimeData) -> (r: Res<()>)
    requires
        old(rtd).wf(),
    ensures
        final(rtd).wf(),
        old(rtd).same_shape(*final(rtd)),
        final(rtd).leftovers == old(rtd).leftovers,
        final(rtd).leftovers_pos == old(rtd).leftovers_pos,
        final(rtd).capt_last_chunk_nbr == old(rtd).capt_last_chunk_nbr,
        final(rtd).recv_log == old(rtd).recv_log,
        final(rtd).sent_log == old(rtd).sent_log,
        final(rtd).flushed_total@ >= old(rtd).flushed_total@,
        final(rtd).recycled_total@ >= old(rtd).recycled_total@,
        old(rtd).dir == Direction::Render ==> r is Ok && final(rtd).capt_flushed_cnt == old(rtd).capt_flushed_cnt && final(rtd).flushed_total == old(rtd).flushed_total
            && final(rtd).recycled_total == old(rtd).recycled_total,
        old(rtd).dir == Direction::Capture && r is Ok ==> final(rtd).capt_flushed_cnt
            == spec_clamp_usize(
            old(rtd).capt_flushed_cnt + (final(rtd).flushed_total@ - old(rtd).flushed_total@),
        ),
        old(rtd).dir == Direction::Capture && r is Ok ==> final(rtd).recycled_total@ - old(rtd).recycled_total@
            == final(rtd).flushed_total@ - old(rtd).flushed_total@,
        r matches Err(e) ==> e.kind == ErrorKind::ChannelClosed,
{
    let ghost pre = *old(rtd);
    if rtd.dir == Direction::Render {
        let limit = rtd.queue_chunks;
        let mut i: usize = 0;
        while i < limit
            invariant
                pre == *old(rtd),
                pre.wf(),
                pre.dir == Direction::Render,
                *rtd == pre,
            decreases limit - i,
        {
            match try_recv_msg(rtd.play_draining_rx_dev.as_ref().unwrap()) {
                Some(_) => {},
                None => {
                    break ;
                },
            }
            i = i + 1;
        }
        Ok(())
    } else {
        let limit = rtd.queue_chunks;
        let mut cnt: usize = 0;
        let mut i: usize = 0;
        while i < limit
            invariant
                pre == *old(rtd),
                pre.wf(),
                pre.dir == Direction::Capture,
                cnt <= i,
                rtd.flushed_total@ == pre.flushed_total@ + cnt,
                rtd.recycled_total@ == pre.recycled_total@ + cnt,
                *rtd == (RuntimeData {
                    flushed_total: rtd.flushed_total,
                    recycled_total: rtd.recycled_total,
                    ..pre
                }),
            decreases limit - i,
        {
            match try_recv_msg(rtd.capt_rx_dev.as_ref().unwrap()) {
                Some((_nbr, data)) => {
                    if send_msg(rtd.capt_tx_prealloc.as_ref().unwrap(), data).is_err() {
                        return Err(
                            DeviceError::with_kind(
                                ErrorKind::ChannelClosed,
                                "prealloc queue closed",
                            ),
                        );
                    }
                    cnt = cnt + 1;
                    rtd.flushed_total = Ghost((rtd.flushed_total@ + 1) as nat);
                    rtd.recycled_total = Ghost((rtd.recycled_total@ + 1) as nat);
                },
                None => {
                    break ;
                },
            }
            i = i + 1;
        }
        if cnt > usize::MAX - rtd.capt_flushed_cnt {
            rtd.capt_flushed_cnt = usize::MAX;
        } else {
            rtd.capt_flushed_cnt = rtd.capt_flushed_cnt + cnt;
        }
        Ok(())
    }
}

pub open spec fn spec_drain_finished(dir: Direction, queue_len: int, bufferfill_bytes: int) -> bool {
    if dir == Direction::Render {
        queue_len == 0 && bufferfill_bytes == 0
    } else {
        queue_len == 0
    }
}

/// The drain decision on one observation: playback is drained once the
/// queue is empty and the device holds nothing; capture once the host
/// has taken everything out of the queue.
pub fn drain_finished(dir: Direction, queue_len: usize, bufferfill_bytes: usize) -> (done: bool)
    ensures
        done == spec_drain_finished(dir, queue_len as int, bufferfill_bytes as int),
{
    if dir == Direction::Render {
        queue_len == 0 && bufferfill_bytes == 0
    } else {
        queue_len == 0
    }
}

/// For capture, draining starts by stopping the device, so that the
/// queue can only empty out.
pub fn do_drain_prepare(rtd: &RuntimeData)
    requires
        rtd.wf(),
{
    if rtd.dir == Direction::Capture {
        rtd.stop_signal.store(true, Ordering::Relaxed);
    }
}

/// One drain poll: reads the queue and the device fill gauge, and when
/// the stream proves drained, for playback also raises the stop signal.
/// The caller sleeps between polls.
pub fn do_drain_step(rtd: &RuntimeData) -> (done: bool)
    requires
        rtd.wf(),
{
    if rtd.dir == Direction::Render {
        let queue_len = sender_queue_len(rtd.play_tx_dev.as_ref().unwrap());
        let fill = rtd.bufferfill_bytes.load(Ordering::Relaxed);
        let done = drain_finished(Direction::Render, queue_len, fill);
        if done {
            rtd.stop_signal.store(true, Ordering::Relaxed);
        }
        done
    } else {
        let queue_len = receiver_queue_len(rtd.capt_rx_dev.as_ref().unwrap());
        drain_finished(Direction::Capture, queue_len, 0)
    }
}

pub open spec fn spec_render_avail(queue_chunks: int, queue_len: int, chunk_bytes: int) -> int {
    if queue_len > queue_chunks {
        0
    } else {
        (queue_chunks - queue_len) * chunk_bytes
    }
}

pub open spec fn spec_capture_avail(queue_len: int, chunk_bytes: int, leftovers_pos: int) -> int {
    queue_len * chunk_bytes + leftovers_pos
}

/// Free room of a playback stream, given one queue observation: the
/// empty queue slots, in bytes. Leftover bytes do not count as used room.
pub fn render_avail_bytes(queue_chunks: usize, queue_len: usize, chunk_frames: usize, frame_bytes: usize) -> (r:
    usize)
    requires
        chunk_frames * frame_bytes <= usize::MAX,
        queue_chunks * (chunk_frames * frame_bytes) <= usize::MAX,
    ensures
        r == spec_render_avail(
            queue_chunks as int,
            queue_len as int,
            chunk_frames * frame_bytes,
        ),
{
    if queue_len > queue_chunks {
        0
    } else {
        let free = queue_chunks - queue_len;
        proof {
            let qc = queue_chunks as int;
            let f = free as int;
            let cb = (chunk_frames * frame_bytes) as int;
            assert(f * cb <= qc * cb) by (nonlinear_arith)
                requires
                    0 <= f <= qc,
                    0 <= cb,
            {}
        }
        free * (chunk_frames * frame_bytes)
    }
}

/// Pending bytes of a capture stream, given one queue observation: the
/// filled queue slots plus the leftovers, capped at the largest
/// representable count.
pub fn capture_avail_bytes(queue_len: usize, chunk_frames: usize, frame_bytes: usize, leftovers_pos: usize) -> (r:
    usize)
    requires
        chunk_frames * frame_bytes <= usize::MAX,
    ensures
        r == spec_clamp_usize(
            spec_capture_avail(queue_len as int, chunk_frames * frame_bytes, leftovers_pos as int),
        ),
{
    proof {
        lemma_u64_scale_fits(queue_len as int, (chunk_frames * frame_bytes) as int);
    }
    let total: u128 = queue_len as u128 * (chunk_frames * frame_bytes) as u128
        + leftovers_pos as u128;
    if total > usize::MAX as u128 {
        usize::MAX
    } else {
        total as usize
    }
}

/// Two counts that each fit a machine word multiply within twice the
/// word size.
proof fn lemma_u64_scale_fits(a: int, b: int)
    requires
        0 <= a <= u64::MAX,
        0 <= b <= u64::MAX,
    ensures
        a * b <= u64::MAX * u64::MAX,
{
    assert(a * b <= u64::MAX * u64::MAX) by (nonlinear_arith)
        requires
            0 <= a <= u64::MAX,
            0 <= b <= u64::MAX,
    {}
}

/// Bytes the host could move right now without blocking: free queue room
/// for playback, pending queue bytes plus leftovers for capture. The
/// value reflects one observation of a queue the inner thread also
/// touches.
pub fn do_get_avail_bytes(rtd: &RuntimeData, dir: &Direction) -> (r: Res<usize>)
    requires
        rtd.wf(),
    ensures
        r is Ok <==> *dir == rtd.dir,
        r matches Err(e) ==> e.kind == ErrorKind::DirectionMismatch,
        r matches Ok(v) ==> (rtd.dir == Direction::Render ==> exists|l: int|
            0 <= l && v == #[trigger] spec_render_avail(
                rtd.queue_chunks as int,
                l,
                rtd.chunk_bytes(),
            )) && (rtd.dir == Direction::Capture ==> exists|l: int|
            0 <= l && v == spec_clamp_usize(
                #[trigger] spec_capture_avail(l, rtd.chunk_bytes(), rtd.leftovers_pos as int),
            )),
{
    check_direction_from_rt(rtd, dir)?;
    if rtd.dir == Direction::Render {
        let queue_len = sender_queue_len(rtd.play_tx_dev.as_ref().unwrap());
        let v = render_avail_bytes(rtd.queue_chunks, queue_len, rtd.chunk_frames, rtd.frame_bytes);
        proof {
            assert(v == spec_render_avail(
                rtd.queue_chunks as int,
                queue_len as int,
                rtd.chunk_bytes(),
            ));
        }
        Ok(v)
    } else {
        let queue_len = receiver_queue_len(rtd.capt_rx_dev.as_ref().unwrap());
        let v = capture_avail_bytes(queue_len, rtd.chunk_frames, rtd.frame_bytes, rtd.leftovers_pos);
        proof {
            assert(v == spec_clamp_usize(
                spec_capture_avail(queue_len as int, rtd.chunk_bytes(), rtd.leftovers_pos as int),
            ));
        }
        Ok(v)
    }
}

pub open spec fn spec_render_byte_pos(host_pos: int, queued_bytes: int) -> int {
    if host_pos >= queued_bytes {
        host_pos - queued_bytes
    } else {
        0
    }
}

pub open spec fn spec_capture_byte_pos(host_pos: int, queued_bytes: int) -> u64 {
    spec_clamp_u64(host_pos + queued_bytes)
}

/// Translates the host's byte position to the device's: playback
/// subtracts what is still queued here and unplayed; capture adds what
/// is captured here and not yet read. The value reflects one observation
/// of the queue.
pub fn do_get_byte_pos(rtd: &RuntimeData, dir: &Direction, java_byte_pos: u64) -> (r: Res<u64>)
    requires
        rtd.wf(),
    ensures
        r is Ok <==> *dir == rtd.dir,
        r matches Err(e) ==> e.kind == ErrorKind::DirectionMismatch,
        r matches Ok(v) ==> (rtd.dir == Direction::Render ==> exists|l: int|
            0 <= l && v == spec_render_byte_pos(
                java_byte_pos as int,
                #[trigger] spec_capture_avail(l, rtd.chunk_bytes(), rtd.leftovers_pos as int),
            )) && (rtd.dir == Direction::Capture ==> exists|l: int|
            0 <= l && v == spec_capture_byte_pos(
                java_byte_pos as int,
                #[trigger] spec_capture_avail(l, rtd.chunk_bytes(), rtd.leftovers_pos as int),
            )),
{
    check_direction_from_rt(rtd, dir)?;
    let queue_len: usize = if rtd.dir == Direction::Render {
        sender_queue_len(rtd.play_tx_dev.as_ref().unwrap())
    } else {
        receiver_queue_len(rtd.capt_rx_dev.as_ref().unwrap())
    };
    proof {
        lemma_u64_scale_fits(queue_len as int, (rtd.chunk_frames * rtd.frame_bytes) as int);
    }
    let queued: u128 = queue_len as u128 * (rtd.chunk_frames * rtd.frame_bytes) as u128
        + rtd.leftovers_pos as u128;
    proof {
        assert(queued == spec_capture_avail(
            queue_len as int,
            rtd.chunk_bytes(),
            rtd.leftovers_pos as int,
        ));
    }
    if rtd.dir == Direction::Render {
        let pos = java_byte_pos as u128;
        let v: u64 = if pos >= queued {
            (pos - queued) as u64
        } else {
            0
        };
        Ok(v)
    } else {
        let sum: u128 = java_byte_pos as u128 + queued;
        let v: u64 = if sum > u64::MAX as u128 {
            u64::MAX
        } else {
            sum as u64
        };
        Ok(v)
    }
}

} // verus!
