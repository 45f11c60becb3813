//! Progress events produced by the transfer and sync loops.

use vstd::prelude::*;

verus! {

/// One progress report from an active operation.
///
/// Events never carry error information: failures travel only through an
/// operation's result.
#[derive(Clone, Debug)]
pub enum Progressing {
    /// Progress information for the file currently being moved.
    Yield {
        /// How many files were already completed before this one.
        done_files: u64,
        /// Total bytes this file will take, as announced by the handshake.
        total_bytes: u64,
        /// Bytes of this file moved so far.
        done_bytes: u64,
        /// The file involved, as raw path bytes.
        path_to_file: Vec<u8>,
    },
    /// The operation finished successfully.
    Done,
}

/// The `done_bytes` figure a `Yield` event carries (`0` for `Done`).
pub open spec fn event_done_bytes(p: Progressing) -> u64 {
    match p {
        Progressing::Yield { done_bytes, .. } => done_bytes,
        Progressing::Done => 0,
    }
}

/// The `total_bytes` figure a `Yield` event carries (`0` for `Done`).
pub open spec fn event_total_bytes(p: Progressing) -> u64 {
    match p {
        Progressing::Yield { total_bytes, .. } => total_bytes,
        Progressing::Done => 0,
    }
}

/// Whether an event is a `Yield`.
pub open spec fn is_yield(p: Progressing) -> bool {
    p is Yield
}

/// Successive `Yield` events never report a smaller `done_bytes` than an
/// earlier one.
pub open spec fn events_monotonic(s: Seq<Progressing>) -> bool {
    forall|i: int, j: int|
        0 <= i <= j < s.len() && is_yield(#[trigger] s[i]) && is_yield(#[trigger] s[j])
            ==> event_done_bytes(s[i]) <= event_done_bytes(s[j])
}

/// Every `Yield` in the sequence announces the same total and reports no
/// more than `done` bytes, and the last event, if it is a `Yield`, reports
/// exactly `done`.
pub open spec fn events_track(s: Seq<Progressing>, total: u64, done: u64) -> bool {
    &&& forall|i: int|
        0 <= i < s.len() && is_yield(#[trigger] s[i]) ==> {
            &&& event_total_bytes(s[i]) == total
            &&& event_done_bytes(s[i]) <= done
        }
    &&& s.len() > 0 && is_yield(s.last()) ==> event_done_bytes(s.last()) == done
}

/// A caller-supplied progress sink: it accepts events and keeps them for
/// the caller to inspect once the operation returns.
#[derive(Clone, Debug)]
pub struct ProgressReporter {
    pub events: Vec<Progressing>,
}

impl ProgressReporter {
    /// A sink that has seen no events yet.
    pub fn new() -> (r: ProgressReporter)
        ensures
            r.events@ =~= Seq::<Progressing>::empty(),
    {
        ProgressReporter { events: Vec::new() }
    }

    /// Accept one event.
    pub fn on_event(&mut self, progressing: Progressing)
        ensures
            final(self).events@ == old(self).events@.push(progressing),
    {
        self.events.push(progressing);
    }

    /// How many events were accepted so far.
    pub fn event_count(&self) -> (n: usize)
        ensures
            n == self.events@.len(),
    {
        self.events.len()
    }
}

} // verus!
