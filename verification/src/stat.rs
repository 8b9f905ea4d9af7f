//! Counts of what has happened to a process.

use vstd::prelude::*;

verus! {

/// Something that is counted.
#[derive(Clone, Copy, Debug, PartialEq, Eq, Structural)]
pub enum Event {
    /// An access to the small heap found memory that was not mapped yet.
    FaultSmall,
    /// An access to the large heap found memory that was not mapped yet.
    FaultLarge,
    /// An access to the huge heap found memory that was not mapped yet.
    FaultHuge,
}

/// How often something has happened.
#[derive(Clone, Copy, Debug, PartialEq, Eq, Structural)]
pub struct Report {
    /// What has happened.
    pub event: Event,
    /// How often. The count starts again at zero after `u64::MAX`.
    pub count: u64,
}

/// The counts.
#[derive(Clone, Copy, Debug, PartialEq, Eq, Structural)]
pub struct Recorder {
    small: u64,
    large: u64,
    huge: u64,
}

impl Recorder {
    /// How often an event has been recorded.
    pub closed spec fn count(&self, event: Event) -> u64 {
        match event {
            Event::FaultSmall => self.small,
            Event::FaultLarge => self.large,
            Event::FaultHuge => self.huge,
        }
    }

    /// Records an event.
    pub fn record(&mut self, event: Event)
        ensures
            final(self).count(event) == (old(self).count(event) + 1) % 0x1_0000_0000_0000_0000,
            forall|other: Event|
                other != event ==> #[trigger] final(self).count(other) == old(self).count(other),
    {
        match event {
            Event::FaultSmall => {
                self.small = self.small.wrapping_add(1);
            },
            Event::FaultLarge => {
                self.large = self.large.wrapping_add(1);
            },
            Event::FaultHuge => {
                self.huge = self.huge.wrapping_add(1);
            },
        }
    }

    /// The count of each event.
    pub fn report(&self) -> (reports: Vec<Report>)
        ensures
            reports@ == seq![
                Report { event: Event::FaultSmall, count: self.count(Event::FaultSmall) },
                Report { event: Event::FaultLarge, count: self.count(Event::FaultLarge) },
                Report { event: Event::FaultHuge, count: self.count(Event::FaultHuge) },
            ],
    {
        let mut reports: Vec<Report> = Vec::new();
        reports.push(Report { event: Event::FaultSmall, count: self.small });
        reports.push(Report { event: Event::FaultLarge, count: self.large });
        reports.push(Report { event: Event::FaultHuge, count: self.huge });
        reports
    }
}

impl Default for Recorder {
    /// Nothing has happened yet.
    fn default() -> (recorder: Self)
        ensures
            forall|event: Event| #[trigger] recorder.count(event) == 0,
    {
        Recorder { small: 0, large: 0, huge: 0 }
    }
}

} // verus!
