use vstd::prelude::*;

verus! {

/// Watches the device clock between audio events to detect missed events.
///
/// All times are in ticks of 100 ns, the device-period unit. A device
/// clock reading of zero is treated as "position not yet valid" rather
/// than as a real time, so the matching frame time is accumulated and
/// checked against the clock at the next valid reading.
pub struct DeviceTimeTracker {
    prev_dev_time: Option<u64>,
    accumulated_frame_time: u64,
}

/// Whether a call with this state and these times reports a missed event:
/// the device clock advanced by more than the elapsed frame time plus half
/// of one frame interval.
pub open spec fn spec_event_missed(prev: Option<u64>, acc: u64, dev: u64, ft: u64) -> bool {
    match prev {
        Some(p) => dev != 0 && acc + ft > 0 && 2 * (dev - p) > 2 * (acc + ft) + ft,
        None => false,
    }
}

/// The remembered clock reading after a call.
pub open spec fn spec_next_prev(prev: Option<u64>, acc: u64, dev: u64, ft: u64) -> Option<u64> {
    if dev == 0 {
        prev
    } else if spec_event_missed(prev, acc, dev, ft) {
        None
    } else {
        Some(dev)
    }
}

/// Addition capped at the largest representable tick count.
pub open spec fn spec_sat_add(a: u64, b: u64) -> u64 {
    if a + b > u64::MAX {
        u64::MAX
    } else {
        (a + b) as u64
    }
}

/// The accumulated frame time after a call.
pub open spec fn spec_next_acc(prev: Option<u64>, acc: u64, dev: u64, ft: u64) -> u64 {
    if dev == 0 {
        if prev is Some {
            spec_sat_add(acc, ft)
        } else {
            acc
        }
    } else {
        0
    }
}

impl DeviceTimeTracker {
    pub closed spec fn prev(self) -> Option<u64> {
        self.prev_dev_time
    }

    pub closed spec fn acc(self) -> u64 {
        self.accumulated_frame_time
    }

    pub fn new() -> (t: Self)
        ensures
            t.prev() is None,
            t.acc() == 0,
    {
        DeviceTimeTracker { prev_dev_time: None, accumulated_frame_time: 0 }
    }

    pub fn reset(&mut self)
        ensures
            final(self).prev() is None,
            final(self).acc() == 0,
    {
        self.prev_dev_time = None;
        self.accumulated_frame_time = 0;
    }

    /// One check: `dev_time` is the device clock now, `frame_time` the
    /// nominal duration of the audio just handled, both in 100 ns ticks.
    /// Reports true exactly when the clock ran ahead of the frame time by
    /// more than half a frame interval; the tracker then starts over.
    pub fn event_missing(&mut self, dev_time: u64, frame_time: u64) -> (missed: bool)
        ensures
            missed == spec_event_missed(old(self).prev(), old(self).acc(), dev_time, frame_time),
            final(self).prev() == spec_next_prev(
                old(self).prev(),
                old(self).acc(),
                dev_time,
                frame_time,
            ),
            final(self).acc() == spec_next_acc(
                old(self).prev(),
                old(self).acc(),
                dev_time,
                frame_time,
            ),
    {
        if dev_time == 0 {
            // Cannot tell a real zero position from "not yet valid": keep the
            // previous reading and roll the frame time into the accumulator.
            if self.prev_dev_time.is_some() {
                if self.accumulated_frame_time > u64::MAX - frame_time {
                    self.accumulated_frame_time = u64::MAX;
                } else {
                    self.accumulated_frame_time = self.accumulated_frame_time + frame_time;
                }
            }
            return false;
        }
        match self.prev_dev_time {
            Some(p) => {
                let elapsed_frame: u128 = self.accumulated_frame_time as u128
                    + frame_time as u128;
                if elapsed_frame > 0 && dev_time > p && (dev_time - p) as u128 * 2
                    > elapsed_frame * 2 + frame_time as u128 {
                    self.reset();
                    return true;
                }
            },
            None => {},
        }
        self.prev_dev_time = Some(dev_time);
        self.accumulated_frame_time = 0;
        false
    }
}

/// While the device clock stays at zero, no missed event is ever reported,
/// whatever state the tracker is in.
pub proof fn lemma_zero_clock_never_missing(prev: Option<u64>, acc: u64, ft: u64)
    ensures
        !spec_event_missed(prev, acc, 0, ft),
{
}

/// After a valid clock reading, a check whose clock advance stays within
/// the elapsed frame time plus half a frame interval reports nothing.
pub proof fn lemma_no_false_positive(prev: Option<u64>, acc: u64, dev: u64, ft: u64)
    requires
        prev matches Some(p) && 2 * (dev - p) <= 2 * (acc + ft) + ft,
    ensures
        !spec_event_missed(prev, acc, dev, ft),
{
}

} // verus!
