use vstd::prelude::*;

verus! {

/// A container chosen for collection: its identifier and the descriptive
/// header text written once at the top of its tables.
pub struct ContainerMetadata {
    pub id: String,
    pub info: String,
}

/// What happened since the cadence last decided.
pub enum CadenceEvent {
    /// The interval elapsed; the discovered containers, or `None` when the
    /// runtime could not be reached.
    Tick(Option<Vec<ContainerMetadata>>),
    /// A termination signal arrived.
    Terminated,
    /// Handing a snapshot to the collectors failed: the receiver is gone.
    SendFailed,
}

/// What the polling loop does next.
pub enum CadenceAction {
    /// Hand this snapshot to the collectors.
    Send(Vec<ContainerMetadata>),
    /// Do nothing for this event.
    Skip,
    /// Leave the polling loop.
    Exit,
}

/// Decision state of the polling loop that drives collection ticks.
pub struct Cadence {
    stopped: bool,
    exited: bool,
}

/// Abstract state of a [`Cadence`].
pub struct CadenceView {
    /// A termination signal has been seen.
    pub stopped: bool,
    /// The loop has been told to exit.
    pub exited: bool,
}

impl View for Cadence {
    type V = CadenceView;

    closed spec fn view(&self) -> CadenceView {
        CadenceView { stopped: self.stopped, exited: self.exited }
    }
}

impl Cadence {
    /// A running cadence.
    pub fn new() -> (r: Cadence)
        ensures
            !r@.stopped,
            !r@.exited,
    {
        Cadence { stopped: false, exited: false }
    }

    /// Whether further ticks should be scheduled.
    pub fn is_running(&self) -> (r: bool)
        ensures
            r == (!self@.stopped && !self@.exited),
    {
        !self.stopped && !self.exited
    }

    /// Decides what to do for one event. Once exited, every event gives
    /// `Exit`. A tick sends its snapshot, the empty one when discovery
    /// failed, unless termination was seen, in which case the send is
    /// skipped. A failed send exits.
    pub fn step(&mut self, event: CadenceEvent) -> (r: CadenceAction)
        ensures
            old(self)@.exited ==> r is Exit && final(self)@ == old(self)@,
            !old(self)@.exited ==> match event {
                CadenceEvent::Tick(discovered) => {
                    &&& final(self)@ == old(self)@
                    &&& old(self)@.stopped ==> r is Skip
                    &&& !old(self)@.stopped ==> (r matches CadenceAction::Send(snapshot) && (
                    match discovered {
                        Some(found) => snapshot == found,
                        None => snapshot@.len() == 0,
                    }))
                },
                CadenceEvent::Terminated => {
                    &&& r is Skip
                    &&& final(self)@ == (CadenceView { stopped: true, exited: false })
                },
                CadenceEvent::SendFailed => {
                    &&& r is Exit
                    &&& final(self)@ == (CadenceView { stopped: old(self)@.stopped, exited: true })
                },
            },
    {
        if self.exited {
            return CadenceAction::Exit;
        }
        match event {
            CadenceEvent::Tick(discovered) => {
                if self.stopped {
                    CadenceAction::Skip
                } else {
                    match discovered {
                        Some(found) => CadenceAction::Send(found),
                        None => CadenceAction::Send(Vec::new()),
                    }
                }
            },
            CadenceEvent::Terminated => {
                self.stopped = true;
                CadenceAction::Skip
            },
            CadenceEvent::SendFailed => {
                self.exited = true;
                CadenceAction::Exit
            },
        }
    }
}

} // verus!
