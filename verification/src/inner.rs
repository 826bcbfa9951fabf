use vstd::prelude::*;

use crate::errors::{DeviceError, ErrorKind, Res};
use crate::tracker::{
    spec_event_missed, spec_next_acc, spec_next_prev, DeviceTimeTracker,
};

verus! {

use crate::runtime::spec_clamp_u64;

/// One order for the audio client, carried out by the loop runner in the
/// order given.
#[derive(Clone, Copy, Debug, PartialEq, Eq, Structural)]
pub enum StreamCmd {
    Start,
    Stop,
    Reset,
}

/// What a loop iteration does next after looking at the control signals.
#[derive(Clone, Copy, Debug, PartialEq, Eq, Structural)]
pub enum SignalStep {
    /// Leave the loop in good order.
    Exit,
    /// Start the next iteration at once.
    Skip,
    /// Start the next iteration after a short pause.
    Pause,
    /// Go on with this iteration.
    Proceed,
}

/// The stream state after the signals are taken: started by `start`,
/// then stopped by `stop`.
pub open spec fn spec_running_after(running: bool, start: bool, stop: bool) -> bool {
    (running || start) && !stop
}

/// Whether taking the signals restarts the device-time tracking.
pub open spec fn spec_signals_reset_tracker(running: bool, start: bool, stop: bool) -> bool {
    (start && !running) || (stop && (running || start))
}

/// The device commands that taking the signals issues.
pub open spec fn spec_signal_cmds(running: bool, start: bool, stop: bool, exit: bool) -> Seq<
    StreamCmd> {
    (if start && !running {
        seq![StreamCmd::Start]
    } else {
        Seq::empty()
    }) + (if stop && (running || start) {
        seq![StreamCmd::Stop]
    } else {
        Seq::empty()
    }) + (if exit {
        seq![StreamCmd::Stop]
    } else {
        Seq::empty()
    })
}

/// The playback loop's own state: whether the stream runs, and the
/// device-time tracking.
pub struct PlayLoopState {
    pub running: bool,
    pub tracker: DeviceTimeTracker,
}

/// What the playback loop heard on the chunk queue this iteration.
pub enum PlayRecv {
    Chunk,
    Timeout,
    Disconnected,
}

/// What the loop runner does after one phase.
#[derive(Clone, Copy, Debug, PartialEq, Eq, Structural)]
pub enum LoopAction {
    /// Write the received chunk to the device and wait on the event.
    WriteChunk,
    /// Nothing to write this iteration.
    Idle,
    /// Leave the loop in good order.
    ExitOk,
    /// Leave the loop with an error.
    Fail,
}

impl PlayLoopState {
    pub fn new() -> (s: Self)
        ensures
            !s.running,
            s.tracker.prev() is None,
            s.tracker.acc() == 0,
    {
        PlayLoopState { running: false, tracker: DeviceTimeTracker::new() }
    }

    /// Takes the edge-triggered control signals, as the loop does at the
    /// top of each iteration. The caller clears each observed signal.
    pub fn handle_signals(&mut self, start: bool, stop: bool, exit: bool) -> (r: (
        Vec<StreamCmd>,
        bool,
    ))
        ensures
            r.0@ == spec_signal_cmds(old(self).running, start, stop, exit),
            r.1 == exit,
            final(self).running == spec_running_after(old(self).running, start, stop),
            spec_signals_reset_tracker(old(self).running, start, stop) ==> final(self).tracker.prev() is None && final(self).tracker.acc() == 0,
            !spec_signals_reset_tracker(old(self).running, start, stop) ==> final(self).tracker
                == old(self).tracker,
    {
        let mut cmds: Vec<StreamCmd> = Vec::new();
        if start && !self.running {
            cmds.push(StreamCmd::Start);
            self.running = true;
            self.tracker.reset();
        }
        if stop && self.running {
            cmds.push(StreamCmd::Stop);
            self.running = false;
            self.tracker.reset();
        }
        if exit {
            cmds.push(StreamCmd::Stop);
        }
        proof {
            assert(cmds@ =~= spec_signal_cmds(old(self).running, start, stop, exit));
        }
        (cmds, exit)
    }

    /// Takes the outcome of the timed wait on the chunk queue: a chunk
    /// starts a stopped stream by itself; a timeout stops a running one;
    /// a closed queue ends the loop, in good order exactly when the exit
    /// signal stands.
    pub fn on_recv(&mut self, outcome: &PlayRecv, exit_signaled: bool) -> (r: (
        Vec<StreamCmd>,
        LoopAction,
    ))
        ensures
            outcome is Chunk ==> r.1 == LoopAction::WriteChunk && final(self).running && (r.0@
                == if old(self).running {
                Seq::<StreamCmd>::empty()
            } else {
                seq![StreamCmd::Start]
            }),
            outcome is Timeout ==> r.1 == LoopAction::Idle && !final(self).running && (r.0@ == if old(self).running {
                seq![StreamCmd::Stop]
            } else {
                Seq::<StreamCmd>::empty()
            }),
            outcome is Disconnected ==> final(self).running == old(self).running && (r.1
                == if exit_signaled {
                LoopAction::ExitOk
            } else {
                LoopAction::Fail
            }) && (r.0@ == if exit_signaled || old(self).running {
                seq![StreamCmd::Stop]
            } else {
                Seq::<StreamCmd>::empty()
            }),
            (outcome is Chunk && !old(self).running) || (outcome is Timeout && old(self).running)
                ==> final(self).tracker.prev() is None && final(self).tracker.acc() == 0,
            !((outcome is Chunk && !old(self).running) || (outcome is Timeout && old(self).running)) ==> final(self).tracker == old(self).tracker,
    {
        let mut cmds: Vec<StreamCmd> = Vec::new();
        match outcome {
            PlayRecv::Chunk => {
                if !self.running {
                    cmds.push(StreamCmd::Start);
                    self.running = true;
                    self.tracker.reset();
                }
                proof {
                    if old(self).running {
                        assert(cmds@ =~= Seq::<StreamCmd>::empty());
                    } else {
                        assert(cmds@ =~= seq![StreamCmd::Start]);
                    }
                }
                (cmds, LoopAction::WriteChunk)
            },
            PlayRecv::Timeout => {
                if self.running {
                    cmds.push(StreamCmd::Stop);
                    self.running = false;
                    self.tracker.reset();
                }
                proof {
                    if old(self).running {
                        assert(cmds@ =~= seq![StreamCmd::Stop]);
                    } else {
                        assert(cmds@ =~= Seq::<StreamCmd>::empty());
                    }
                }
                (cmds, LoopAction::Idle)
            },
            PlayRecv::Disconnected => {
                if exit_signaled {
                    cmds.push(StreamCmd::Stop);
                    proof {
                        assert(cmds@ =~= seq![StreamCmd::Stop]);
                    }
                    (cmds, LoopAction::ExitOk)
                } else {
                    if self.running {
                        cmds.push(StreamCmd::Stop);
                    }
                    proof {
                        if old(self).running {
                            assert(cmds@ =~= seq![StreamCmd::Stop]);
                        } else {
                            assert(cmds@ =~= Seq::<StreamCmd>::empty());
                        }
                    }
                    (cmds, LoopAction::Fail)
                }
            },
        }
    }

    /// Checks the device clock after an iteration: a missed event on a
    /// running stream has the device reset in place.
    pub fn check_clock(&mut self, dev_time_ticks: u64, frame_time_ticks: u64) -> (r: (
        Vec<StreamCmd>,
        bool,
    ))
        ensures
            r.1 == spec_event_missed(
                old(self).tracker.prev(),
                old(self).tracker.acc(),
                dev_time_ticks,
                frame_time_ticks,
            ),
            r.0@ == (if r.1 && old(self).running {
                seq![StreamCmd::Stop, StreamCmd::Reset, StreamCmd::Start]
            } else {
                Seq::<StreamCmd>::empty()
            }),
            final(self).running == old(self).running,
            r.1 ==> final(self).tracker.prev() is None && final(self).tracker.acc() == 0,
            !r.1 ==> final(self).tracker.prev() == spec_next_prev(
                old(self).tracker.prev(),
                old(self).tracker.acc(),
                dev_time_ticks,
                frame_time_ticks,
            ) && final(self).tracker.acc() == spec_next_acc(
                old(self).tracker.prev(),
                old(self).tracker.acc(),
                dev_time_ticks,
                frame_time_ticks,
            ),
    {
        let missed = self.tracker.event_missing(dev_time_ticks, frame_time_ticks);
        let mut cmds: Vec<StreamCmd> = Vec::new();
        if missed && self.running {
            cmds.push(StreamCmd::Stop);
            cmds.push(StreamCmd::Reset);
            cmds.push(StreamCmd::Start);
            self.tracker.reset();
        }
        proof {
            if missed && old(self).running {
                assert(cmds@ =~= seq![StreamCmd::Stop, StreamCmd::Reset, StreamCmd::Start]);
            } else {
                assert(cmds@ =~= Seq::<StreamCmd>::empty());
            }
        }
        (cmds, missed)
    }
}

/// The wait-for-event outcome on playback: a timeout there is fatal.
pub fn play_wait_outcome(wait_ok: bool) -> (r: Option<DeviceError>)
    ensures
        r is Some <==> !wait_ok,
        r matches Some(e) ==> e.kind == ErrorKind::EventTimeout,
{
    if wait_ok {
        None
    } else {
        Some(DeviceError::with_kind(ErrorKind::EventTimeout, "no event within the wait"))
    }
}

/// The device clock position as 100 ns ticks: `pos / freq` seconds.
pub open spec fn spec_clock_ticks(pos: u64, freq: u64) -> u64 {
    spec_clamp_u64((pos as int) * 10_000_000 / (freq as int))
}

/// Converts a device clock reading to 100 ns ticks.
pub fn clock_ticks(pos: u64, freq: u64) -> (r: u64)
    requires
        freq >= 1,
    ensures
        r == spec_clock_ticks(pos, freq),
{
    let wide: u128 = pos as u128 * 10_000_000u128 / freq as u128;
    if wide > u64::MAX as u128 {
        u64::MAX
    } else {
        wide as u64
    }
}

/// The nominal duration of `frames` frames at `rate`, in 100 ns ticks.
pub open spec fn spec_frame_ticks(frames: int, rate: int) -> u64 {
    spec_clamp_u64(frames * 10_000_000 / rate)
}

/// Converts a frame count to its nominal duration in 100 ns ticks.
pub fn frame_ticks(frames: u32, rate: usize) -> (r: u64)
    requires
        rate >= 1,
    ensures
        r == spec_frame_ticks(frames as int, rate as int),
{
    let wide: u128 = frames as u128 * 10_000_000u128 / rate as u128;
    if wide > u64::MAX as u128 {
        u64::MAX
    } else {
        wide as u64
    }
}

/// The device commands that taking the signals issues on the capture
/// side: a stop skips the rest of the iteration, so an exit standing
/// beside it is only seen one look later.
pub open spec fn spec_capt_signal_cmds(running: bool, start: bool, stop: bool, exit: bool) -> Seq<
    StreamCmd> {
    (if start && !running {
        seq![StreamCmd::Start]
    } else {
        Seq::empty()
    }) + (if stop {
        if running || start {
            seq![StreamCmd::Stop]
        } else {
            Seq::empty()
        }
    } else if exit {
        seq![StreamCmd::Stop]
    } else {
        Seq::empty()
    })
}

/// The capture loop's own state.
pub struct CaptLoopState {
    pub running: bool,
    pub inactive: bool,
    pub chunk_nbr: u64,
    pub saved_buffer: Option<Vec<u8>>,
    pub tracker: DeviceTimeTracker,
}

/// The outcome of offering a chunk to the outer side without blocking.
pub enum CaptSend {
    Sent,
    /// The queue was full; the buffer comes back to be kept for the next
    /// iteration.
    Full(Vec<u8>),
    Closed,
}

impl CaptLoopState {
    pub fn new() -> (s: Self)
        ensures
            !s.running,
            !s.inactive,
            s.chunk_nbr == 0,
            s.saved_buffer is None,
            s.tracker.prev() is None,
            s.tracker.acc() == 0,
    {
        CaptLoopState {
            running: false,
            inactive: false,
            chunk_nbr: 0,
            saved_buffer: None,
            tracker: DeviceTimeTracker::new(),
        }
    }

    /// Takes the control signals at the top of a capture iteration: after
    /// a stop the iteration is skipped; a stopped stream pauses before
    /// the next look; the exit signal ends the loop.
    pub fn handle_signals(&mut self, start: bool, stop: bool, exit: bool) -> (r: (
        Vec<StreamCmd>,
        SignalStep,
    ))
        ensures
            r.0@ == spec_capt_signal_cmds(old(self).running, start, stop, exit),
            final(self).running == (if stop {
                false
            } else {
                old(self).running || start
            }),
            r.1 == (if stop {
                SignalStep::Skip
            } else if exit {
                SignalStep::Exit
            } else if !(old(self).running || start) {
                SignalStep::Pause
            } else {
                SignalStep::Proceed
            }),
            final(self).inactive == old(self).inactive,
            final(self).chunk_nbr == old(self).chunk_nbr,
            final(self).saved_buffer == old(self).saved_buffer,
    {
        let mut cmds: Vec<StreamCmd> = Vec::new();
        if start && !self.running {
            cmds.push(StreamCmd::Start);
            self.running = true;
            self.tracker.reset();
        }
        let mut step = SignalStep::Proceed;
        if stop {
            if self.running {
                cmds.push(StreamCmd::Stop);
                self.running = false;
                self.tracker.reset();
            }
            step = SignalStep::Skip;
        } else if exit {
            cmds.push(StreamCmd::Stop);
            step = SignalStep::Exit;
        } else if !self.running {
            step = SignalStep::Pause;
        }
        proof {
            assert(cmds@ =~= spec_capt_signal_cmds(old(self).running, start, stop, exit));
        }
        (cmds, step)
    }

    /// The second look at `stop` and `exit` after the long wait on the
    /// device event, where both may have arrived meanwhile.
    pub fn recheck_signals(&mut self, stop: bool, exit: bool) -> (r: (Vec<StreamCmd>, SignalStep))
        ensures
            r.0@ == spec_capt_signal_cmds(old(self).running, false, stop, exit),
            final(self).running == (if stop {
                false
            } else {
                old(self).running
            }),
            r.1 == (if stop {
                SignalStep::Skip
            } else if exit {
                SignalStep::Exit
            } else {
                SignalStep::Proceed
            }),
            final(self).inactive == old(self).inactive,
            final(self).chunk_nbr == old(self).chunk_nbr,
            final(self).saved_buffer == old(self).saved_buffer,
    {
        let mut cmds: Vec<StreamCmd> = Vec::new();
        let mut step = SignalStep::Proceed;
        if stop {
            if self.running {
                cmds.push(StreamCmd::Stop);
                self.running = false;
                self.tracker.reset();
            }
            step = SignalStep::Skip;
        } else if exit {
            cmds.push(StreamCmd::Stop);
            step = SignalStep::Exit;
        }
        proof {
            assert(cmds@ =~= spec_capt_signal_cmds(old(self).running, false, stop, exit));
        }
        (cmds, step)
    }

    /// Notes whether the event wait timed out; a first timeout marks the
    /// stream inactive (to be logged once), data marks it active again.
    pub fn on_wait(&mut self, wait_ok: bool) -> (newly_inactive: bool)
        ensures
            final(self).inactive == !wait_ok,
            newly_inactive == (!wait_ok && !old(self).inactive),
            final(self).running == old(self).running,
            final(self).chunk_nbr == old(self).chunk_nbr,
            final(self).saved_buffer == old(self).saved_buffer,
            final(self).tracker == old(self).tracker,
    {
        if !wait_ok {
            let newly = !self.inactive;
            self.inactive = true;
            newly
        } else {
            self.inactive = false;
            false
        }
    }

    /// Hands out the buffer kept from a failed send, if one waits.
    pub fn take_saved_buffer(&mut self) -> (b: Option<Vec<u8>>)
        ensures
            b == old(self).saved_buffer,
            final(self).saved_buffer is None,
            final(self).running == old(self).running,
            final(self).inactive == old(self).inactive,
            final(self).chunk_nbr == old(self).chunk_nbr,
            final(self).tracker == old(self).tracker,
    {
        self.saved_buffer.take()
    }

    /// Books the outcome of offering a chunk to the outer side: only a
    /// delivered chunk advances the number; a full queue keeps the buffer
    /// for the next try under the same number.
    pub fn record_send(&mut self, outcome: CaptSend) -> (r: (Vec<StreamCmd>, Res<()>))
        ensures
            outcome is Sent ==> r.1 is Ok && final(self).chunk_nbr == spec_clamp_u64(
                old(self).chunk_nbr + 1,
            ) && final(self).saved_buffer is None && r.0@ == Seq::<StreamCmd>::empty(),
            (outcome matches CaptSend::Full(b) ==> r.1 is Ok && final(self).chunk_nbr == old(self).chunk_nbr && final(self).saved_buffer == Some(b) && r.0@ == Seq::<StreamCmd>::empty()),
            outcome is Closed ==> (r.1 matches Err(e) && e.kind == ErrorKind::ChannelClosed) && r.0@
                == seq![StreamCmd::Stop],
            final(self).running == old(self).running,
            final(self).inactive == old(self).inactive,
            final(self).tracker == old(self).tracker,
    {
        let mut cmds: Vec<StreamCmd> = Vec::new();
        match outcome {
            CaptSend::Sent => {
                if self.chunk_nbr == u64::MAX {
                    self.chunk_nbr = u64::MAX;
                } else {
                    self.chunk_nbr = self.chunk_nbr + 1;
                }
                self.saved_buffer = None;
                (cmds, Ok(()))
            },
            CaptSend::Full(b) => {
                self.saved_buffer = Some(b);
                (cmds, Ok(()))
            },
            CaptSend::Closed => {
                cmds.push(StreamCmd::Stop);
                proof {
                    assert(cmds@ =~= seq![StreamCmd::Stop]);
                }
                (
                    cmds,
                    Err(
                        DeviceError::with_kind(
                            ErrorKind::ChannelClosed,
                            "capture queue closed without exit",
                        ),
                    ),
                )
            },
        }
    }

    /// Checks the device clock after an iteration; capture only notes a
    /// missed event, it never resets the stream.
    pub fn check_clock(&mut self, dev_time_ticks: u64, frame_time_ticks: u64) -> (missed: bool)
        ensures
            missed == spec_event_missed(
                old(self).tracker.prev(),
                old(self).tracker.acc(),
                dev_time_ticks,
                frame_time_ticks,
            ),
            final(self).running == old(self).running,
            final(self).inactive == old(self).inactive,
            final(self).chunk_nbr == old(self).chunk_nbr,
            final(self).saved_buffer == old(self).saved_buffer,
    {
        self.tracker.event_missing(dev_time_ticks, frame_time_ticks)
    }
}

/// Exclusive mode hands the device buffer over whole: anything but
/// exactly one chunk of frames is a broken device contract.
pub fn capture_chunk_bytes(available_frames: usize, chunk_frames: usize, frame_bytes: usize) -> (r:
    Res<usize>)
    requires
        chunk_frames * frame_bytes <= usize::MAX,
    ensures
        r is Ok <==> available_frames == chunk_frames,
        r matches Ok(n) ==> n == chunk_frames * frame_bytes,
        r matches Err(e) ==> e.kind == ErrorKind::ExclusiveModeAnomaly,
{
    if available_frames != chunk_frames {
        return Err(
            DeviceError::with_kind(
                ErrorKind::ExclusiveModeAnomaly,
                "device buffer is not one chunk in exclusive mode",
            ),
        );
    }
    Ok(chunk_frames * frame_bytes)
}

/// Grows or trims a recycled capture buffer to the real chunk size; in
/// the steady state this settles after one call per buffer.
pub fn capt_resize_buffer(data: &mut Vec<u8>, chunk_bytes: usize)
    ensures
        final(data)@.len() == chunk_bytes,
        forall|i: int|
            0 <= i < chunk_bytes && i < old(data)@.len() ==> final(data)@[i] == old(data)@[i],
{
    if data.len() != chunk_bytes {
        data.resize(chunk_bytes, 0);
    }
}

/// Zeroes a buffer the device marked silent; an unmarked buffer stays.
pub fn capt_apply_silence(data: &mut Vec<u8>, silent: bool)
    ensures
        final(data)@.len() == old(data)@.len(),
        silent ==> forall|i: int| 0 <= i < final(data)@.len() ==> final(data)@[i] == 0,
        !silent ==> *final(data) == *old(data),
{
    if silent {
        let n = data.len();
        let mut i: usize = 0;
        while i < n
            invariant
                i <= n,
                n == data@.len(),
                data@.len() == old(data)@.len(),
                forall|j: int| 0 <= j < i ==> data@[j] == 0,
            decreases n - i,
        {
            data[i] = 0;
            i = i + 1;
        }
    }
}

} // verus!
