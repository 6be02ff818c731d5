//! The event log: a bounded list of narrated happenings, oldest first.

use crate::color::Color;
use vstd::prelude::*;
use vstd::slice::slice_subrange;

verus! {

/// How many entries a new log keeps.
pub const DEFAULT_CAPACITY: usize = 100;

pub struct Event {
    pub tick: u64,
    pub message: String,
    pub color: Color,
}

/// An event as specifications see it: the message as its characters.
pub ghost struct Entry {
    pub tick: u64,
    pub message: Seq<char>,
    pub color: Color,
}

impl View for Event {
    type V = Entry;

    open spec fn view(&self) -> Entry {
        Entry { tick: self.tick, message: self.message@, color: self.color }
    }
}

pub struct EventLog {
    pub events: Vec<Event>,
    pub max_events: usize,
}

/// The entries of `log` after `entry` was appended to a log that keeps at
/// most `max` entries: the oldest one leaves when the log overflows.
pub open spec fn appended(log: Seq<Entry>, max: usize, entry: Entry) -> Seq<Entry> {
    let all = log.push(entry);
    if all.len() > max {
        all.drop_first()
    } else {
        all
    }
}

/// The events as entries.
pub open spec fn entries(events: Seq<Event>) -> Seq<Entry> {
    events.map_values(|e: Event| e@)
}

impl View for EventLog {
    type V = Seq<Entry>;

    open spec fn view(&self) -> Seq<Entry> {
        entries(self.events@)
    }
}

impl EventLog {
    /// What `log` does, as a function of the log before it.
    pub open spec fn with(&self, tick: u64, message: Seq<char>, color: Color) -> Seq<Entry> {
        appended(self@, self.max_events, Entry { tick, message, color })
    }

    pub fn new() -> (log: EventLog)
        ensures
            log@ == Seq::<Entry>::empty(),
            log.max_events == DEFAULT_CAPACITY,
    {
        let log = EventLog { events: Vec::new(), max_events: DEFAULT_CAPACITY };
        assert(log@ =~= Seq::<Entry>::empty());
        log
    }

    /// Appends an entry; when the log then holds more than `max_events`
    /// entries, the oldest is dropped.
    pub fn log(&mut self, tick: u64, message: String, color: Color)
        ensures
            final(self).max_events == old(self).max_events,
            final(self)@ == old(self).with(tick, message@, color),
    {
        let ghost entry = Entry { tick, message: message@, color };
        self.events.push(Event { tick, message, color });
        assert(self@ =~= old(self)@.push(entry));
        if self.events.len() > self.max_events {
            self.events.remove(0);
            assert(self@ =~= old(self)@.push(entry).drop_first());
        }
    }

    /// The newest `count` entries, oldest first; all of them if the log
    /// holds fewer.
    pub fn recent(&self, count: usize) -> (r: &[Event])
        ensures
            entries(r@) == if count >= self@.len() {
                self@
            } else {
                self@.skip(self@.len() - count)
            },
    {
        let len = self.events.len();
        let start = if count >= len {
            0
        } else {
            len - count
        };
        let r = slice_subrange(self.events.as_slice(), start, len);
        assert(entries(r@) =~= self@.skip(start as int));
        assert(self@.skip(0) =~= self@);
        r
    }
}

} // verus!
