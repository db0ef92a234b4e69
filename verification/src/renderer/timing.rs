//! Measuring how long the device takes for a frame.
use vstd::prelude::*;

use crate::gpu_runtime::native_words::native_long_words;

verus! {

/// How far the measurement in a slot has come.
#[derive(Debug, Clone, Copy, PartialEq, Eq, Structural)]
pub enum GpuFrameTimingSlotState {
    Idle,
    /// The frame has been handed to the device.
    Submitted { frame_id: u64 },
    /// The timestamps of the frame are being mapped for reading.
    Mapping { frame_id: u64 },
}

/// What has become of mapping the timestamps of a slot.
#[derive(Debug, Clone, Copy, PartialEq, Eq, Structural)]
pub enum TimingMapEvent {
    /// Nothing to report yet.
    Pending,
    /// The timestamps have been read. Without a duration, there were not
    /// enough of them.
    Ready { gpu_time_micros: Option<u64> },
    /// The timestamps cannot be read.
    Failed,
}

#[derive(Debug, Clone, Copy, PartialEq, Eq, Structural)]
pub struct FrameGpuTimingReport {
    pub frame_id: u64,
    pub gpu_time_micros: u64,
}

/// The measurements that are under way.
pub struct GpuFrameTimingState {
    /// The device can measure.
    pub supported: bool,
    pub slots: Vec<GpuFrameTimingSlotState>,
    pub latest_report: Option<FrameGpuTimingReport>,
}

/// The state of a slot after a poll.
pub open spec fn slot_after(
    state: GpuFrameTimingSlotState,
    event: TimingMapEvent,
) -> GpuFrameTimingSlotState {
    match state {
        GpuFrameTimingSlotState::Idle => GpuFrameTimingSlotState::Idle,
        GpuFrameTimingSlotState::Submitted { frame_id } => GpuFrameTimingSlotState::Mapping {
            frame_id,
        },
        GpuFrameTimingSlotState::Mapping { frame_id } => if event is Pending {
            state
        } else {
            GpuFrameTimingSlotState::Idle
        },
    }
}

/// The report that a poll brings from a slot, if it brings one.
pub open spec fn slot_report(state: GpuFrameTimingSlotState, event: TimingMapEvent) -> Option<
    FrameGpuTimingReport,
> {
    match (state, event) {
        (
            GpuFrameTimingSlotState::Mapping { frame_id },
            TimingMapEvent::Ready { gpu_time_micros: Some(gpu_time_micros) },
        ) => Some(FrameGpuTimingReport { frame_id, gpu_time_micros }),
        _ => None,
    }
}

/// The last of the reports that a poll brings.
pub open spec fn last_report(
    slots: Seq<GpuFrameTimingSlotState>,
    events: Seq<TimingMapEvent>,
    count: int,
) -> Option<FrameGpuTimingReport>
    decreases count,
{
    if count <= 0 {
        None
    } else {
        match slot_report(slots[count - 1], events[count - 1]) {
            Some(report) => Some(report),
            None => last_report(slots, events, count - 1),
        }
    }
}

/// The slots among the first ones whose timestamps are to be mapped: those that
/// have been submitted, in order.
pub open spec fn submitted_slots(slots: Seq<GpuFrameTimingSlotState>, count: int) -> Seq<usize>
    decreases count,
{
    if count <= 0 {
        Seq::empty()
    } else if slots[count - 1] is Submitted {
        submitted_slots(slots, count - 1).push((count - 1) as usize)
    } else {
        submitted_slots(slots, count - 1)
    }
}

/// The ticks between the first two timestamps, if there are two.
pub open spec fn ticks_between(timestamps: Seq<u64>) -> Option<u64> {
    if timestamps.len() < 2 {
        None
    } else if timestamps[1] >= timestamps[0] {
        Some((timestamps[1] - timestamps[0]) as u64)
    } else {
        Some(0)
    }
}

/// The ticks between the first two timestamps, if there are two.
pub fn elapsed_ticks(timestamps: &Vec<u64>) -> (ticks: Option<u64>)
    ensures
        ticks == ticks_between(timestamps@),
{
    if timestamps.len() < 2 {
        return None;
    }
    Some(timestamps[1].saturating_sub(timestamps[0]))
}

/// The ticks that a frame took, from the bytes of its timestamps.
pub fn elapsed_ticks_of_bytes(mapped: &Vec<u8>) -> (ticks: Option<u64>)
    requires
        mapped@.len() % 8 == 0,
    ensures
        exists|timestamps: Seq<u64>|
            #[trigger] crate::gpu_runtime::native_words::long_natively_laid_out(mapped@, timestamps)
                && ticks == ticks_between(timestamps),
{
    let timestamps = native_long_words(mapped);
    elapsed_ticks(&timestamps)
}

/// The two queries of a slot: for the start and the end of its frame.
pub fn timing_query_indices(slot_index: usize) -> (indices: (u32, u32))
    requires
        2 * slot_index + 1 <= u32::MAX,
    ensures
        indices.0 == 2 * slot_index,
        indices.1 == 2 * slot_index + 1,
{
    let start: u32 = (slot_index * 2) as u32;
    (start, start + 1)
}

impl GpuFrameTimingState {
    /// As many idle slots as asked for, if the device can measure.
    pub fn new(supported: bool, slot_count: usize) -> (state: Self)
        ensures
            state.supported == supported,
            state.slots@.len() == (if supported {
                slot_count as int
            } else {
                0
            }),
            forall|i: int| 0 <= i < state.slots@.len() ==> #[trigger] state.slots@[i] is Idle,
            state.latest_report is None,
    {
        let mut slots: Vec<GpuFrameTimingSlotState> = Vec::new();
        if supported {
            let mut index: usize = 0;
            while index < slot_count
                invariant
                    index <= slot_count,
                    slots@.len() == index,
                    forall|i: int| 0 <= i < index ==> #[trigger] slots@[i] is Idle,
                decreases slot_count - index,
            {
                slots.push(GpuFrameTimingSlotState::Idle);
                index += 1;
            }
        }
        GpuFrameTimingState { supported, slots, latest_report: None }
    }

    /// The slot for a frame: frames take turns. A frame whose slot is still in
    /// use is not measured.
    pub fn reserve_gpu_timing_slot(&self, frame_id: u64) -> (slot: Option<usize>)
        ensures
            slot == (if self.supported && self.slots@.len() > 0 && self.slots@[frame_id as int
                % self.slots@.len() as int] is Idle {
                Some((frame_id as int % self.slots@.len() as int) as usize)
            } else {
                None
            }),
    {
        if !self.supported {
            return None;
        }
        let slot_count: usize = self.slots.len();
        if slot_count == 0 {
            return None;
        }
        let slot_index: usize = (frame_id % slot_count as u64) as usize;
        match self.slots[slot_index] {
            GpuFrameTimingSlotState::Idle => Some(slot_index),
            _ => None,
        }
    }

    /// Notes that a frame has been handed to the device.
    pub fn note_submitted(&mut self, timing_slot_index: Option<usize>, frame_id: u64)
        requires
            timing_slot_index matches Some(index) ==> index < old(self).slots@.len(),
        ensures
            final(self).supported == old(self).supported,
            final(self).latest_report == old(self).latest_report,
            final(self).slots@ == match timing_slot_index {
                Some(index) => old(self).slots@.update(
                    index as int,
                    GpuFrameTimingSlotState::Submitted { frame_id },
                ),
                None => old(self).slots@,
            },
    {
        match timing_slot_index {
            Some(index) => {
                self.slots.set(index, GpuFrameTimingSlotState::Submitted { frame_id });
            },
            None => {},
        }
    }

    /// Moves every slot on, given what has become of mapping its timestamps,
    /// and gives the slots whose timestamps are to be mapped now, in order.
    pub fn poll_gpu_timing_reports(&mut self, events: &Vec<TimingMapEvent>) -> (to_map: Vec<usize>)
        requires
            events@.len() == old(self).slots@.len(),
        ensures
            final(self).supported == old(self).supported,
            !old(self).supported ==> final(self).slots@ == old(self).slots@
                && final(self).latest_report == old(self).latest_report && to_map@.len() == 0,
            old(self).supported ==> {
                &&& final(self).slots@.len() == old(self).slots@.len()
                &&& forall|i: int|
                    0 <= i < old(self).slots@.len() ==> #[trigger] final(self).slots@[i]
                        == slot_after(old(self).slots@[i], events@[i])
                &&& final(self).latest_report == match last_report(
                    old(self).slots@,
                    events@,
                    old(self).slots@.len() as int,
                ) {
                    Some(report) => Some(report),
                    None => old(self).latest_report,
                }
                &&& to_map@ == submitted_slots(old(self).slots@, old(self).slots@.len() as int)
            },
    {
        let mut to_map: Vec<usize> = Vec::new();
        if !self.supported {
            return to_map;
        }
        let ghost start = self.slots@;
        let mut latest: Option<FrameGpuTimingReport> = None;
        let mut index: usize = 0;
        while index < self.slots.len()
            invariant
                index <= self.slots@.len(),
                self.slots@.len() == start.len(),
                events@.len() == start.len(),
                start == old(self).slots@,
                self.supported,
                self.supported == old(self).supported,
                self.latest_report == old(self).latest_report,
                forall|i: int|
                    0 <= i < index ==> #[trigger] self.slots@[i] == slot_after(start[i], events@[i]),
                forall|i: int| index <= i < start.len() ==> #[trigger] self.slots@[i] == start[i],
                latest == last_report(start, events@, index as int),
                to_map@ == submitted_slots(start, index as int),
            decreases self.slots@.len() - index,
        {
            let state = self.slots[index];
            match state {
                GpuFrameTimingSlotState::Idle => {},
                GpuFrameTimingSlotState::Submitted { frame_id } => {
                    to_map.push(index);
                    self.slots.set(index, GpuFrameTimingSlotState::Mapping { frame_id });
                },
                GpuFrameTimingSlotState::Mapping { frame_id } => match events[index] {
                    TimingMapEvent::Pending => {},
                    TimingMapEvent::Ready { gpu_time_micros } => {
                        match gpu_time_micros {
                            Some(micros) => {
                                latest =
                                Some(FrameGpuTimingReport { frame_id, gpu_time_micros: micros });
                            },
                            None => {},
                        }
                        self.slots.set(index, GpuFrameTimingSlotState::Idle);
                    },
                    TimingMapEvent::Failed => {
                        self.slots.set(index, GpuFrameTimingSlotState::Idle);
                    },
                },
            }
            index += 1;
        }
        if latest.is_some() {
            self.latest_report = latest;
        }
        to_map
    }

    /// Hands out the latest report, once.
    pub fn take_latest_report(&mut self) -> (report: Option<FrameGpuTimingReport>)
        ensures
            report == old(self).latest_report,
            final(self).latest_report is None,
            final(self).slots == old(self).slots,
            final(self).supported == old(self).supported,
    {
        self.latest_report.take()
    }
}

/// A poll asks for each slot that has been submitted to be mapped, once, and for
/// no other, from the first slot to the last.
pub proof fn lemma_submitted_slots_are_mapped_once(
    slots: Seq<GpuFrameTimingSlotState>,
    count: int,
)
    requires
        0 <= count <= slots.len() <= usize::MAX,
    ensures
        forall|slot: usize| #[trigger]
            submitted_slots(slots, count).contains(slot) <==> slot < count
                && slots[slot as int] is Submitted,
        forall|i: int, j: int|
            0 <= i < j < submitted_slots(slots, count).len() ==> #[trigger] submitted_slots(
                slots,
                count,
            )[i] < #[trigger] submitted_slots(slots, count)[j],
    decreases count,
{
    if count > 0 {
        lemma_submitted_slots_are_mapped_once(slots, count - 1);
        let before = submitted_slots(slots, count - 1);
        let after = submitted_slots(slots, count);
        let last = (count - 1) as usize;
        assert forall|i: int| 0 <= i < before.len() implies #[trigger] before[i] < last by {
            assert(before.contains(before[i]));
        }
        assert forall|slot: usize| #[trigger] after.contains(slot) <==> slot < count
            && slots[slot as int] is Submitted by {
            if slots[count - 1] is Submitted {
                assert(after[before.len() as int] == last);
                if before.contains(slot) {
                    assert(after[before.index_of(slot)] == slot);
                }
                if after.contains(slot) && slot != last {
                    assert(before[after.index_of(slot)] == slot);
                }
            }
        }
    }
}

/// A report names the frame that was submitted in its slot: from submission
/// over mapping to the report the frame stays the same, and then the slot is
/// idle again.
pub proof fn lemma_report_names_submitted_frame(
    frame_id: u64,
    first: TimingMapEvent,
    gpu_time_micros: u64,
)
    ensures
        ({
            let submitted = GpuFrameTimingSlotState::Submitted { frame_id };
            let mapping = slot_after(submitted, first);
            let ready = TimingMapEvent::Ready { gpu_time_micros: Some(gpu_time_micros) };
            &&& slot_report(submitted, first) is None
            &&& slot_report(mapping, ready) == Some(
                FrameGpuTimingReport { frame_id, gpu_time_micros },
            )
            &&& slot_after(mapping, TimingMapEvent::Pending) == mapping
            &&& slot_after(mapping, ready) is Idle
        }),
{
}

} // verus!
