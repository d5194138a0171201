//! Time tags and the column batches they arrive in.
use vstd::prelude::*;

use crate::snakes::Picosecond;

verus! {

/// A single tag that arrives from the time tagger. A `type_` of zero is a
/// time tag; any other value is an overflow or error record.
#[derive(Debug, Copy, Clone, PartialEq, Eq, Structural)]
pub struct Event {
    pub type_: u8,
    pub missed_event: u16,
    pub channel: i32,
    pub time: Picosecond,
}

impl Event {
    /// Creates a new event with the given values.
    pub fn new(type_: u8, missed_event: u16, channel: i32, time: Picosecond) -> (r: Event)
        ensures
            r == (Event { type_, missed_event, channel, time }),
    {
        Event { type_, missed_event, channel, time }
    }

    /// The event at row `idx` of `stream`, if there is such a row.
    pub fn from_stream_idx(stream: &EventStream, idx: usize) -> (r: Option<Event>)
        requires
            stream.wf(),
        ensures
            r == (if idx < stream.events().len() {
                Some(stream.events()[idx as int])
            } else {
                None
            }),
    {
        if stream.num_rows() > idx {
            Some(
                Event {
                    type_: stream.type_[idx],
                    missed_event: stream.missed_events[idx],
                    channel: stream.channel[idx],
                    time: stream.time[idx],
                },
            )
        } else {
            None
        }
    }
}

/// A batch of tags as a structure of arrays: four columns of equal length.
#[derive(Clone, Debug)]
pub struct EventStream {
    pub type_: Vec<u8>,
    pub missed_events: Vec<u16>,
    pub channel: Vec<i32>,
    pub time: Vec<Picosecond>,
}

impl EventStream {
    pub open spec fn wf(&self) -> bool {
        &&& self.missed_events@.len() == self.type_@.len()
        &&& self.channel@.len() == self.type_@.len()
        &&& self.time@.len() == self.type_@.len()
    }

    /// The events of the batch, in order.
    pub open spec fn events(&self) -> Seq<Event> {
        Seq::new(
            self.type_@.len(),
            |i: int|
                Event {
                    type_: self.type_@[i],
                    missed_event: self.missed_events@[i],
                    channel: self.channel@[i],
                    time: self.time@[i],
                },
        )
    }

    /// Creates a batch over the four columns.
    pub fn new(type_: Vec<u8>, missed_events: Vec<u16>, channel: Vec<i32>, time: Vec<Picosecond>) -> (r:
        EventStream)
        requires
            missed_events@.len() == type_@.len(),
            channel@.len() == type_@.len(),
            time@.len() == type_@.len(),
        ensures
            r.wf(),
            r.type_@ == type_@,
            r.missed_events@ == missed_events@,
            r.channel@ == channel@,
            r.time@ == time@,
    {
        EventStream { type_, missed_events, channel, time }
    }

    /// A batch without events.
    pub fn empty() -> (r: EventStream)
        ensures
            r.wf(),
            r.events().len() == 0,
    {
        Self::from_stream(Vec::new(), Vec::new(), Vec::new(), Vec::new())
    }

    /// Creates a batch over the four columns.
    pub fn from_stream(
        type_: Vec<u8>,
        missed_events: Vec<u16>,
        channel: Vec<i32>,
        time: Vec<Picosecond>,
    ) -> (r: EventStream)
        requires
            missed_events@.len() == type_@.len(),
            channel@.len() == type_@.len(),
            time@.len() == type_@.len(),
        ensures
            r.wf(),
            r.type_@ == type_@,
            r.missed_events@ == missed_events@,
            r.channel@ == channel@,
            r.time@ == time@,
    {
        EventStream { type_, missed_events, channel, time }
    }

    /// The number of events in the batch.
    pub fn num_rows(&self) -> (r: usize)
        requires
            self.wf(),
        ensures
            r == self.events().len(),
    {
        self.type_.len()
    }

    /// The events of the batch, in order, as records.
    pub fn to_events(&self) -> (r: Vec<Event>)
        requires
            self.wf(),
        ensures
            r@ == self.events(),
    {
        let mut r: Vec<Event> = Vec::new();
        let n = self.num_rows();
        let mut i: usize = 0;
        while i < n
            invariant
                self.wf(),
                n == self.events().len(),
                0 <= i <= n,
                r@ == self.events().subrange(0, i as int),
            decreases n - i,
        {
            let e = Event {
                type_: self.type_[i],
                missed_event: self.missed_events[i],
                channel: self.channel[i],
                time: self.time[i],
            };
            r.push(e);
            assert(r@ =~= self.events().subrange(0, i + 1));
            i += 1;
        }
        assert(r@ =~= self.events());
        r
    }

    /// A resumable walk over the events of the batch that borrows it.
    pub fn iter<'a>(&'a self) -> (r: RefEventStreamIter<'a>)
        requires
            self.wf(),
        ensures
            r.wf(),
            r.stream == self,
            r.idx == 0,
    {
        RefEventStreamIter { stream: self, idx: 0, len: self.num_rows() }
    }

    /// A resumable walk over the events of the batch, from the first.
    pub fn into_iter(self) -> (r: EventStreamIter)
        requires
            self.wf(),
        ensures
            r.wf(),
            r.stream.events() == self.events(),
            r.idx == 0,
    {
        let len = self.num_rows();
        EventStreamIter { stream: self, idx: 0, len }
    }
}

/// A walk over the events of a borrowed batch that can stop at any event and
/// later resume at the next one.
#[derive(Clone, Debug)]
pub struct RefEventStreamIter<'a> {
    pub stream: &'a EventStream,
    pub idx: usize,
    pub len: usize,
}

impl<'a> RefEventStreamIter<'a> {
    pub open spec fn wf(&self) -> bool {
        &&& self.stream.wf()
        &&& self.len == self.stream.events().len()
        &&& self.idx <= self.len
    }

    /// The next event, if any is left.
    pub fn next(&mut self) -> (r: Option<Event>)
        requires
            old(self).wf(),
        ensures
            final(self).wf(),
            final(self).stream == old(self).stream,
            old(self).idx < old(self).len ==> r == Some(old(self).stream.events()[old(self).idx as int])
                && final(self).idx == old(self).idx + 1,
            old(self).idx >= old(self).len ==> r is None && final(self).idx == old(self).idx,
    {
        if self.idx < self.len {
            let cur_row = Event::new(
                self.stream.type_[self.idx],
                self.stream.missed_events[self.idx],
                self.stream.channel[self.idx],
                self.stream.time[self.idx],
            );
            self.idx += 1;
            Some(cur_row)
        } else {
            None
        }
    }
}

/// A walk over the events of a batch that can stop at any event and later
/// resume at the next one.
#[derive(Clone, Debug)]
pub struct EventStreamIter {
    pub stream: EventStream,
    pub idx: usize,
    pub len: usize,
}

impl EventStreamIter {
    pub open spec fn wf(&self) -> bool {
        &&& self.stream.wf()
        &&& self.len == self.stream.events().len()
        &&& self.idx <= self.len
    }

    /// The events not yet handed out.
    pub open spec fn remaining(&self) -> Seq<Event> {
        self.stream.events().subrange(self.idx as int, self.len as int)
    }

    /// The next event, if any is left.
    pub fn next(&mut self) -> (r: Option<Event>)
        requires
            old(self).wf(),
        ensures
            final(self).wf(),
            final(self).stream.events() == old(self).stream.events(),
            old(self).idx < old(self).len ==> r == Some(old(self).stream.events()[old(self).idx as int])
                && final(self).idx == old(self).idx + 1,
            old(self).idx >= old(self).len ==> r is None && final(self).idx == old(self).idx,
    {
        if self.idx < self.len {
            let cur_row = Event::new(
                self.stream.type_[self.idx],
                self.stream.missed_events[self.idx],
                self.stream.channel[self.idx],
                self.stream.time[self.idx],
            );
            self.idx += 1;
            Some(cur_row)
        } else {
            None
        }
    }
}

} // verus!
