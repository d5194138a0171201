//! Interpretation of time tags, framing, and the per-frame processing state.
//!
//! The processing state is modelled by spec functions: [`dispatch`] gives the
//! outcome of one event, [`act`] adds a drawn photon to the frame buffers,
//! and [`drain`], [`search`] and [`populate`] run a sequence of events up to
//! the end of a frame.
use vstd::prelude::*;
use vstd::seq_lib::lemma_multiset_commutative;

use crate::configuration::{AppConfig, DataType, Inputs, MAX_CHANNEL};
use crate::event_stream::Event;
use crate::frame_buffers::{
    add_hit, hits, key_of, lemma_saturating_sum, FrameBuffers, Rgb, VoxelKey, COLOR_FULL,
};
use crate::snakes::{
    coord_of, frame_table, geometry_of, next_frame, valid_profile, Bin, Geometry, ImageCoor, Picosecond, Snake,
    SnakeState,
};

verus! {

/// The result of handling one event of the time tagger.
#[derive(Debug, Clone, Copy, PartialEq, Eq, Structural)]
pub enum ProcessedEvent {
    /// A photon to draw: its voxel and its spectral channel (zero-based).
    Displayed(ImageCoor, usize),
    /// Nothing to do with this event.
    NoOp,
    /// A new frame, signalled by the frame channel.
    FrameNewFrame,
    /// A new frame, signalled by a line beyond the last row of the frame.
    LineNewFrame,
    /// A photon that arrived after the end of the current frame: line
    /// signals were probably missed.
    PhotonNewFrame,
    /// An erroneous event.
    Error,
}

/// The display outputs, one per spectral channel and one for the merge.
#[derive(Debug, Clone, Copy, PartialEq, Eq, Structural)]
pub enum ChannelNames {
    Channel1,
    Channel2,
    Channel3,
    Channel4,
    ChannelMerge,
}

impl ChannelNames {
    /// The index of the channel's frame buffer.
    pub fn buffer_index(&self) -> (r: usize)
        ensures
            r == match *self {
                ChannelNames::Channel1 => 0usize,
                ChannelNames::Channel2 => 1usize,
                ChannelNames::Channel3 => 2usize,
                ChannelNames::Channel4 => 3usize,
                ChannelNames::ChannelMerge => 4usize,
            },
    {
        match self {
            ChannelNames::Channel1 => 0,
            ChannelNames::Channel2 => 1,
            ChannelNames::Channel3 => 2,
            ChannelNames::Channel4 => 3,
            ChannelNames::ChannelMerge => 4,
        }
    }
}

/// What stays fixed during an acquisition.
pub struct Setup {
    /// The role of each channel of the instrument.
    pub inputs: Seq<DataType>,
    pub geometry: Geometry,
    pub bins: Seq<Bin>,
    pub rows_per_frame: u32,
    pub increment: u32,
}

/// The framing state: the snake's state and the lines seen in this frame.
pub struct FramingState {
    pub snake: SnakeState,
    pub line_count: u32,
    pub lines: Seq<Picosecond>,
}

/// The whole changing state of the processing.
pub struct Model {
    pub framing: FramingState,
    /// The frame buffers, the merge channel last.
    pub buffers: Seq<Map<VoxelKey, Rgb>>,
    /// Whether the start of a frame is still being looked for.
    pub awaiting_sync: bool,
}

/// The role of channel `ch`.
pub open spec fn role(inputs: Seq<DataType>, ch: int) -> DataType {
    if 0 <= ch <= MAX_CHANNEL {
        inputs[ch]
    } else {
        DataType::Invalid
    }
}

/// A line signal: the first line beyond the last row starts a new frame.
pub open spec fn on_line(rows: u32, s: FramingState, t: int) -> (FramingState, ProcessedEvent) {
    if s.line_count == rows {
        (
            FramingState { snake: next_frame(s.snake, t), line_count: 0, lines: seq![] },
            ProcessedEvent::LineNewFrame,
        )
    } else {
        (
            FramingState {
                snake: s.snake,
                line_count: (s.line_count + 1) as u32,
                lines: s.lines.push(t as i64),
            },
            ProcessedEvent::NoOp,
        )
    }
}

/// A frame signal always starts a new frame.
pub open spec fn on_frame(s: FramingState, t: int) -> (FramingState, ProcessedEvent) {
    (
        FramingState { snake: next_frame(s.snake, t), line_count: 0, lines: seq![] },
        ProcessedEvent::FrameNewFrame,
    )
}

/// The outcome of one event, and the framing state after it.
pub open spec fn dispatch(c: Setup, s: FramingState, e: Event) -> (FramingState, ProcessedEvent) {
    if e.type_ != 0 {
        (s, ProcessedEvent::NoOp)
    } else {
        match role(c.inputs, e.channel as int) {
            DataType::Pmt1 => (s, coord_of(c.geometry, c.bins, s.snake, e.time as int, 0)),
            DataType::Pmt2 => (s, coord_of(c.geometry, c.bins, s.snake, e.time as int, 1)),
            DataType::Pmt3 => (s, coord_of(c.geometry, c.bins, s.snake, e.time as int, 2)),
            DataType::Pmt4 => (s, coord_of(c.geometry, c.bins, s.snake, e.time as int, 3)),
            DataType::Line => on_line(c.rows_per_frame, s, e.time as int),
            DataType::Frame => on_frame(s, e.time as int),
            DataType::TagLens => (
                FramingState { snake: SnakeState { tag_origin: Some(e.time), ..s.snake }, ..s },
                ProcessedEvent::NoOp,
            ),
            DataType::Laser => (
                FramingState { snake: SnakeState { last_laser: Some(e.time), ..s.snake }, ..s },
                ProcessedEvent::NoOp,
            ),
            DataType::Invalid => (s, ProcessedEvent::NoOp),
        }
    }
}

/// The buffers after a photon at `p` on spectral channel `ch`.
pub open spec fn add_point(b: Seq<Map<VoxelKey, Rgb>>, p: ImageCoor, ch: int, inc: u32) -> Seq<
    Map<VoxelKey, Rgb>,
> {
    b.update(ch, add_hit(b[ch], key_of(p), inc)).update(4, add_hit(b[4], key_of(p), inc))
}

/// One event acted on: drawn photons go to the buffers, and the signals that
/// end a frame are returned.
pub open spec fn act(c: Setup, m: Model, e: Event) -> (Model, Option<ProcessedEvent>) {
    let (f, r) = dispatch(c, m.framing, e);
    match r {
        ProcessedEvent::Displayed(p, ch) => (
            Model { framing: f, buffers: add_point(m.buffers, p, ch as int, c.increment), ..m },
            None,
        ),
        ProcessedEvent::FrameNewFrame => (Model { framing: f, ..m }, Some(r)),
        ProcessedEvent::LineNewFrame => (Model { framing: f, ..m }, Some(r)),
        ProcessedEvent::PhotonNewFrame => (Model { framing: f, ..m }, Some(r)),
        _ => (Model { framing: f, ..m }, None),
    }
}

/// A time tag on the line or the frame channel.
pub open spec fn is_sync(c: Setup, e: Event) -> bool {
    e.type_ == 0 && (role(c.inputs, e.channel as int) == DataType::Line || role(
        c.inputs,
        e.channel as int,
    ) == DataType::Frame)
}

/// The index of the first line or frame signal from index `i` on; the
/// length of `evs` if there is none.
pub open spec fn first_sync_from(c: Setup, evs: Seq<Event>, i: nat) -> int
    decreases evs.len() - i,
{
    if i >= evs.len() {
        evs.len() as int
    } else if is_sync(c, evs[i as int]) {
        i as int
    } else {
        first_sync_from(c, evs, i + 1)
    }
}

/// The state once a frame starts at sync event `e`: a line signal counts
/// as the first line of the frame.
pub open spec fn synced(c: Setup, m: Model, e: Event) -> Model {
    Model {
        framing: FramingState {
            snake: next_frame(m.framing.snake, e.time as int),
            line_count: if role(c.inputs, e.channel as int) == DataType::Line {
                1
            } else {
                0
            },
            lines: seq![],
        },
        buffers: m.buffers,
        awaiting_sync: false,
    }
}

/// Skips to the first line or frame signal and starts a frame there; the
/// events after it are left over.
pub open spec fn search(c: Setup, m: Model, evs: Seq<Event>) -> (Model, Option<Seq<Event>>) {
    let k = first_sync_from(c, evs, 0);
    if k < evs.len() {
        (synced(c, m, evs[k]), Some(evs.subrange(k + 1, evs.len() as int)))
    } else {
        (Model { awaiting_sync: true, ..m }, None)
    }
}

/// Acts on events up to the end of the frame; the events after the one that
/// ended it are left over. A photon after the frame ends it too, and the next
/// frame then starts at the next line or frame signal.
pub open spec fn drain(c: Setup, m: Model, evs: Seq<Event>) -> (Model, Option<Seq<Event>>)
    decreases evs.len(),
{
    if evs.len() == 0 {
        (m, None)
    } else {
        let (m1, o) = act(c, m, evs[0]);
        let rest = evs.subrange(1, evs.len() as int);
        match o {
            Some(ProcessedEvent::PhotonNewFrame) => search(c, m1, rest),
            Some(_) => (m1, Some(rest)),
            None => drain(c, m1, rest),
        }
    }
}

/// Feeds a batch of events: a search for the start of a frame when one is
/// awaited, else the events of the current frame.
pub open spec fn populate(c: Setup, m: Model, carry: Option<Seq<Event>>) -> (Model, Option<Seq<Event>>) {
    match carry {
        None => (m, None),
        Some(evs) => if m.awaiting_sync {
            search(c, m, evs)
        } else {
            drain(c, m, evs)
        },
    }
}

pub open spec fn opt_view(v: Option<Vec<Event>>) -> Option<Seq<Event>> {
    match v {
        Some(v) => Some(v@),
        None => None,
    }
}

/// Whether the frame ending in the `frame_number`-th is to be rendered:
/// every `rolling_avg`-th frame is.
pub fn render_due(frame_number: u64, rolling_avg: u16) -> (r: bool)
    requires
        rolling_avg > 0,
    ensures
        r == (frame_number % (rolling_avg as u64) == 0),
{
    frame_number % (rolling_avg as u64) == 0
}

/// The events of `v` from index `from` on.
fn tail_of(v: &Vec<Event>, from: usize) -> (r: Vec<Event>)
    requires
        from <= v@.len(),
    ensures
        r@ == v@.subrange(from as int, v@.len() as int),
{
    let mut r: Vec<Event> = Vec::new();
    let mut i: usize = from;
    while i < v.len()
        invariant
            from <= i <= v@.len(),
            r@ == v@.subrange(from as int, i as int),
        decreases v@.len() - i,
    {
        r.push(v[i]);
        assert(r@ =~= v@.subrange(from as int, i + 1));
        i += 1;
    }
    r
}

proof fn lemma_first_sync_from(c: Setup, evs: Seq<Event>, i: nat, k: int)
    requires
        i <= k <= evs.len(),
        k < evs.len() ==> is_sync(c, evs[k]),
        forall|j: int| i <= j < k ==> !is_sync(c, #[trigger] evs[j]),
    ensures
        first_sync_from(c, evs, i) == k,
    decreases k - i,
{
    if i < k {
        lemma_first_sync_from(c, evs, i + 1, k);
    }
}

/// The leftover `r` of a run over `evs` is what follows the event at which
/// the run stopped: together with the events up to it, it is `evs` again.
pub open spec fn leftover_of(evs: Seq<Event>, r: Option<Seq<Event>>) -> bool {
    match r {
        None => true,
        Some(rest) => splits_after(evs, evs.len() - rest.len() - 1, rest),
    }
}

/// `rest` is what follows event `j` of `evs`, and the events up to `j`
/// together with `rest` are the events of `evs`, each as often.
pub open spec fn splits_after(evs: Seq<Event>, j: int, rest: Seq<Event>) -> bool {
    &&& 0 <= j < evs.len()
    &&& rest == evs.subrange(j + 1, evs.len() as int)
    &&& evs.subrange(0, j + 1).to_multiset().add(rest.to_multiset()) == evs.to_multiset()
}

proof fn lemma_split_multiset(evs: Seq<Event>, j: int)
    requires
        0 <= j < evs.len(),
    ensures
        evs.subrange(0, j + 1).to_multiset().add(evs.subrange(j + 1, evs.len() as int).to_multiset())
            == evs.to_multiset(),
{
    lemma_multiset_commutative(evs.subrange(0, j + 1), evs.subrange(j + 1, evs.len() as int));
    assert(evs.subrange(0, j + 1) + evs.subrange(j + 1, evs.len() as int) =~= evs);
}

proof fn lemma_search_leftover(c: Setup, m: Model, evs: Seq<Event>)
    ensures
        leftover_of(evs, search(c, m, evs).1),
{
    let k = first_sync_from(c, evs, 0);
    if k < evs.len() {
        lemma_first_sync_bound(c, evs, 0);
        lemma_split_multiset(evs, k);
        let rest = evs.subrange(k + 1, evs.len() as int);
        assert(search(c, m, evs).1 == Some(rest));
        assert(splits_after(evs, k, rest));
    }
}

proof fn lemma_first_sync_bound(c: Setup, evs: Seq<Event>, i: nat)
    requires
        i <= evs.len(),
    ensures
        i <= first_sync_from(c, evs, i) <= evs.len(),
    decreases evs.len() - i,
{
    if i < evs.len() && !is_sync(c, evs[i as int]) {
        lemma_first_sync_bound(c, evs, i + 1);
    }
}

proof fn lemma_drain_leftover(c: Setup, m: Model, evs: Seq<Event>)
    ensures
        leftover_of(evs, drain(c, m, evs).1),
    decreases evs.len(),
{
    if evs.len() > 0 {
        let (m1, o) = act(c, m, evs[0]);
        let rest = evs.subrange(1, evs.len() as int);
        match o {
            Some(ProcessedEvent::PhotonNewFrame) => {
                lemma_search_leftover(c, m1, rest);
                if let Some(left) = search(c, m1, rest).1 {
                    let j = rest.len() - left.len() - 1;
                    assert(left =~= evs.subrange(j + 2, evs.len() as int));
                    lemma_split_multiset(evs, j + 1);
                    assert(splits_after(evs, j + 1, left));
                }
            },
            Some(_) => {
                lemma_split_multiset(evs, 0);
                assert(drain(c, m, evs).1 == Some(rest));
                assert(splits_after(evs, 0, rest));
            },
            None => {
                lemma_drain_leftover(c, m1, rest);
                if let Some(left) = drain(c, m1, rest).1 {
                    let j = rest.len() - left.len() - 1;
                    assert(left =~= evs.subrange(j + 2, evs.len() as int));
                    lemma_split_multiset(evs, j + 1);
                    assert(splits_after(evs, j + 1, left));
                }
            },
        }
    }
}

/// Across a frame boundary no event is repeated or lost: the events left
/// over for the next frame are exactly those after the event that ended
/// this one, and with the events consumed they make up the batch.
pub proof fn lemma_frame_boundary_keeps_events(c: Setup, m: Model, evs: Seq<Event>)
    ensures
        leftover_of(evs, populate(c, m, Some(evs)).1),
{
    if m.awaiting_sync {
        lemma_search_leftover(c, m, evs);
    } else {
        lemma_drain_leftover(c, m, evs);
    }
}

/// The state after acting on every event of `evs` in order, whatever they
/// signal.
pub open spec fn acts(c: Setup, m: Model, evs: Seq<Event>) -> Model
    decreases evs.len(),
{
    if evs.len() == 0 {
        m
    } else {
        act(c, acts(c, m, evs.drop_last()), evs.last()).0
    }
}

/// What acting on event `j` of `evs` returns, after the events before it.
pub open spec fn signal_at(c: Setup, m: Model, evs: Seq<Event>, j: int) -> Option<ProcessedEvent> {
    act(c, acts(c, m, evs.subrange(0, j)), evs[j]).1
}

proof fn lemma_acts_front(c: Setup, m: Model, evs: Seq<Event>)
    requires
        evs.len() >= 1,
    ensures
        acts(c, m, evs) == acts(c, act(c, m, evs[0]).0, evs.subrange(1, evs.len() as int)),
    decreases evs.len(),
{
    let m1 = act(c, m, evs[0]).0;
    let rest = evs.subrange(1, evs.len() as int);
    if evs.len() == 1 {
        assert(evs.drop_last() =~= Seq::<Event>::empty());
        assert(rest =~= Seq::<Event>::empty());
    } else {
        lemma_acts_front(c, m, evs.drop_last());
        assert(evs.drop_last().subrange(1, evs.len() - 1) =~= rest.drop_last());
        assert(evs.drop_last()[0] == evs[0]);
        assert(rest.last() == evs.last());
    }
}

/// The run stops at the first event that ends the frame: it has acted on
/// that event and every one before it, each once and in order, and leaves
/// over exactly the events after it.
pub proof fn lemma_drain_stops_at_first_boundary(c: Setup, m: Model, evs: Seq<Event>, i: int)
    requires
        0 <= i < evs.len(),
        forall|j: int| 0 <= j < i ==> #[trigger] signal_at(c, m, evs, j) is None,
        signal_at(c, m, evs, i) == Some(ProcessedEvent::FrameNewFrame) || signal_at(c, m, evs, i)
            == Some(ProcessedEvent::LineNewFrame),
    ensures
        drain(c, m, evs) == (
            acts(c, m, evs.subrange(0, i + 1)),
            Some(evs.subrange(i + 1, evs.len() as int)),
        ),
    decreases i,
{
    let m1 = act(c, m, evs[0]).0;
    let rest = evs.subrange(1, evs.len() as int);
    assert(evs.subrange(0, 0) =~= Seq::<Event>::empty());
    lemma_acts_front(c, m, evs.subrange(0, i + 1));
    assert(evs.subrange(0, i + 1).subrange(1, i + 1) =~= rest.subrange(0, i));
    if i == 0 {
        assert(rest.subrange(0, 0) =~= Seq::<Event>::empty());
    } else {
        assert(signal_at(c, m, evs, 0) is None);
        assert forall|j: int| 0 <= j < i - 1 implies #[trigger] signal_at(c, m1, rest, j) is None by {
            lemma_acts_front(c, m, evs.subrange(0, j + 1));
            assert(evs.subrange(0, j + 1).subrange(1, j + 1) =~= rest.subrange(0, j));
            assert(signal_at(c, m, evs, j + 1) is None);
        }
        lemma_acts_front(c, m, evs.subrange(0, i));
        assert(evs.subrange(0, i).subrange(1, i) =~= rest.subrange(0, i - 1));
        lemma_drain_stops_at_first_boundary(c, m1, rest, i - 1);
        assert(rest.subrange(i, rest.len() as int) =~= evs.subrange(i + 1, evs.len() as int));
    }
}

proof fn lemma_first_sync_props(c: Setup, evs: Seq<Event>, i: nat)
    requires
        i <= evs.len(),
    ensures
        i <= first_sync_from(c, evs, i) <= evs.len(),
        first_sync_from(c, evs, i) < evs.len() ==> is_sync(c, evs[first_sync_from(c, evs, i)]),
        forall|j: int| i <= j < first_sync_from(c, evs, i) ==> !is_sync(c, #[trigger] evs[j]),
    decreases evs.len() - i,
{
    if i < evs.len() && !is_sync(c, evs[i as int]) {
        lemma_first_sync_props(c, evs, i + 1);
    }
}

proof fn lemma_search_concat(c: Setup, m: Model, a: Seq<Event>, b: Seq<Event>)
    ensures
        search(c, m, a).1 is Some ==> search(c, m, a + b) == (
            search(c, m, a).0,
            Some(search(c, m, a).1->0 + b),
        ),
        search(c, m, a).1 is None ==> search(c, m, a + b) == search(c, search(c, m, a).0, b),
{
    let ab = a + b;
    lemma_first_sync_props(c, a, 0);
    lemma_first_sync_props(c, b, 0);
    let k = first_sync_from(c, a, 0);
    if k < a.len() {
        assert forall|j: int| 0 <= j < k implies !is_sync(c, #[trigger] ab[j]) by {
            assert(ab[j] == a[j]);
        }
        assert(ab[k] == a[k]);
        lemma_first_sync_from(c, ab, 0, k);
        assert(ab.subrange(k + 1, ab.len() as int) =~= a.subrange(k + 1, a.len() as int) + b);
    } else {
        let j = first_sync_from(c, b, 0);
        assert forall|x: int| 0 <= x < a.len() + j implies !is_sync(c, #[trigger] ab[x]) by {
            if x < a.len() {
                assert(ab[x] == a[x]);
            } else {
                assert(ab[x] == b[x - a.len()]);
            }
        }
        if j < b.len() {
            assert(ab[a.len() + j] == b[j]);
        }
        lemma_first_sync_from(c, ab, 0, a.len() + j);
        if j < b.len() {
            assert(ab.subrange(a.len() + j + 1, ab.len() as int) =~= b.subrange(j + 1, b.len() as int));
        }
    }
}

proof fn lemma_drain_concat(c: Setup, m: Model, a: Seq<Event>, b: Seq<Event>)
    requires
        !m.awaiting_sync,
    ensures
        drain(c, m, a).1 is Some ==> drain(c, m, a + b) == (
            drain(c, m, a).0,
            Some(drain(c, m, a).1->0 + b),
        ),
        drain(c, m, a).1 is None ==> drain(c, m, a + b) == populate(c, drain(c, m, a).0, Some(b)),
    decreases a.len(),
{
    if a.len() == 0 {
        assert(a + b =~= b);
    } else {
        let ab = a + b;
        let (m1, o) = act(c, m, a[0]);
        let ra = a.subrange(1, a.len() as int);
        assert(ab[0] == a[0]);
        assert(ab.subrange(1, ab.len() as int) =~= ra + b);
        match o {
            Some(ProcessedEvent::PhotonNewFrame) => {
                lemma_search_concat(c, m1, ra, b);
                lemma_first_sync_props(c, ra, 0);
            },
            Some(_) => {},
            None => {
                lemma_drain_concat(c, m1, ra, b);
            },
        }
    }
}

/// Batches are invisible: feeding a stream in two batches, the second only
/// when the first did not end the frame, gives the same state and the same
/// leftover events as feeding it whole. No event is dispatched twice and none
/// is dropped at a batch boundary.
pub proof fn lemma_batches_compose(c: Setup, m: Model, a: Seq<Event>, b: Seq<Event>)
    ensures
        populate(c, m, Some(a)).1 is Some ==> populate(c, m, Some(a + b)) == (
            populate(c, m, Some(a)).0,
            Some(populate(c, m, Some(a)).1->0 + b),
        ),
        populate(c, m, Some(a)).1 is None ==> populate(c, m, Some(a + b)) == populate(
            c,
            populate(c, m, Some(a)).0,
            Some(b),
        ),
{
    if m.awaiting_sync {
        lemma_search_concat(c, m, a, b);
        lemma_first_sync_props(c, a, 0);
    } else {
        lemma_drain_concat(c, m, a, b);
    }
}

/// After `k` photons at one voxel of spectral channel `ch`, where neither
/// that channel nor the merge had an entry, each color component of the voxel
/// in both is `k` increments, or full intensity if that is less.
pub proof fn lemma_repeated_hits(c: Setup, m: Model, evs: Seq<Event>, ch: int, q: VoxelKey)
    requires
        m.buffers.len() == 5,
        0 <= ch < 4,
        !m.buffers[ch].contains_key(q),
        !m.buffers[4].contains_key(q),
        forall|j: int|
            0 <= j < evs.len() ==> {
                let o = #[trigger] dispatch(c, acts(c, m, evs.subrange(0, j)).framing, evs[j]).1;
                o is Displayed && o->Displayed_1 == ch && key_of(o->Displayed_0) == q
            },
    ensures
        acts(c, m, evs).buffers.len() == 5,
        evs.len() > 0 ==> acts(c, m, evs).buffers[ch].contains_key(q) && acts(
            c,
            m,
            evs,
        ).buffers[4].contains_key(q),
        evs.len() > 0 ==> acts(c, m, evs).buffers[ch][q] == (
            hits(evs.len(), c.increment),
            hits(evs.len(), c.increment),
            hits(evs.len(), c.increment),
        ),
        evs.len() > 0 ==> acts(c, m, evs).buffers[4][q] == (
            hits(evs.len(), c.increment),
            hits(evs.len(), c.increment),
            hits(evs.len(), c.increment),
        ),
        hits(evs.len(), c.increment) == if evs.len() * c.increment >= COLOR_FULL {
            COLOR_FULL as int
        } else {
            evs.len() * c.increment
        },
    decreases evs.len(),
{
    lemma_saturating_sum(m.buffers[ch], q, c.increment, evs.len());
    if evs.len() > 0 {
        let n = evs.len() - 1;
        let prev = evs.drop_last();
        assert forall|j: int| 0 <= j < prev.len() implies {
            let o = #[trigger] dispatch(c, acts(c, m, prev.subrange(0, j)).framing, prev[j]).1;
            o is Displayed && o->Displayed_1 == ch && key_of(o->Displayed_0) == q
        } by {
            assert(prev.subrange(0, j) =~= evs.subrange(0, j));
            assert(prev[j] == evs[j]);
            assert(dispatch(c, acts(c, m, evs.subrange(0, j)).framing, evs[j]).1 is Displayed);
        }
        lemma_repeated_hits(c, m, prev, ch, q);
        assert(evs.subrange(0, n) =~= prev);
        let pm = acts(c, m, prev);
        let o = dispatch(c, pm.framing, evs[n]).1;
        assert(o is Displayed && o->Displayed_1 == ch && key_of(o->Displayed_0) == q);
        let inc = c.increment;
        assert(acts(c, m, evs) == act(c, pm, evs.last()).0);
        assert(evs.last() == evs[n]);
        assert(acts(c, m, evs).buffers == add_point(pm.buffers, o->Displayed_0, ch, inc));
        if n == 0 {
            assert(prev =~= Seq::<Event>::empty());
            assert(pm == m);
        }
        assert(hits((n + 1) as nat, inc) == crate::frame_buffers::bump(hits(n as nat, inc), inc));
        assert(hits(0, inc) == 0);
        assert(acts(c, m, evs).buffers[ch] == add_hit(pm.buffers[ch], q, inc));
        assert(acts(c, m, evs).buffers[4] == add_hit(pm.buffers[4], q, inc));
        let h = hits(n as nat, inc);
        if n > 0 {
            assert(pm.buffers[ch][q] == (h, h, h));
            assert(pm.buffers[4][q] == (h, h, h));
        } else {
            assert(!pm.buffers[ch].contains_key(q));
            assert(!pm.buffers[4].contains_key(q));
        }
    }
}

/// The outcome of an event depends on nothing but the channel roles, the
/// snake and the framing state: two processing states that agree on them
/// give the same outcome and the same next state.
pub proof fn lemma_dispatch_deterministic(a: &AppState, b: &AppState, e: Event)
    requires
        a.setup() == b.setup(),
        a.framing() == b.framing(),
    ensures
        dispatch(a.setup(), a.framing(), e) == dispatch(b.setup(), b.framing(), e),
{
}

/// A two-dimensional scan draws every photon on the first plane.
pub proof fn lemma_planar_scan_depth(c: Setup, s: FramingState, e: Event)
    requires
        c.geometry.planes <= 1,
    ensures
        dispatch(c, s, e).1 is Displayed ==> dispatch(c, s, e).1->Displayed_0.z == 0,
{
}

/// The zero-based spectral channel of a photomultiplier input; -1 for the
/// other roles.
pub open spec fn pmt_index(d: DataType) -> int {
    match d {
        DataType::Pmt1 => 0,
        DataType::Pmt2 => 1,
        DataType::Pmt3 => 2,
        DataType::Pmt4 => 3,
        _ => -1,
    }
}

/// The offset of time `t` into the frame of `a`, line shift included.
pub open spec fn frame_offset(a: &AppState, t: int) -> int {
    t - a.snake.state.frame_origin - a.snake.geometry.line_shift
}

/// Whether time `t` is within the frame of `a` and in the field of view of
/// its row `r`.
pub open spec fn in_row_field(a: &AppState, t: int, r: int) -> bool {
    let g = a.snake.geometry;
    &&& 0 <= r < g.rows
    &&& 0 <= t - a.snake.state.frame_origin < g.frame_span + g.frame_dead_time
    &&& r * g.row_period + g.lead < frame_offset(a, t) <= r * g.row_period + g.lead + g.active
    &&& frame_offset(a, t) < g.frame_span
}

/// A photon on a spectral input that arrives in the field of view of row `r`
/// of the current frame is drawn on its own channel, on row `r`, in a column
/// of the image.
pub proof fn lemma_photon_event_row(a: &AppState, e: Event, r: int)
    requires
        a.wf(),
        e.type_ == 0,
        pmt_index(role(a.setup().inputs, e.channel as int)) >= 0,
        in_row_field(a, e.time as int, r),
    ensures
        dispatch(a.setup(), a.framing(), e).1 is Displayed,
        dispatch(a.setup(), a.framing(), e).1->Displayed_1 == pmt_index(
            role(a.setup().inputs, e.channel as int),
        ),
        dispatch(a.setup(), a.framing(), e).1->Displayed_0.y == r,
        dispatch(a.setup(), a.framing(), e).1->Displayed_0.x < a.snake.geometry.columns,
{
    let k = pmt_index(role(a.setup().inputs, e.channel as int));
    crate::snakes::lemma_photon_row(&a.snake, e.time as int, k as usize, r);
}

/// Two photons on one spectral input, in the field of view of the same row,
/// are drawn on that row in the row's sweep direction: the later one is not
/// left of the earlier on a forward row, not right of it on a reversed one.
pub proof fn lemma_photon_events_sweep(a: &AppState, e1: Event, e2: Event, r: int)
    requires
        a.wf(),
        e1.type_ == 0,
        e2.type_ == 0,
        pmt_index(role(a.setup().inputs, e1.channel as int)) >= 0,
        role(a.setup().inputs, e2.channel as int) == role(a.setup().inputs, e1.channel as int),
        e1.time <= e2.time,
        in_row_field(a, e1.time as int, r),
        in_row_field(a, e2.time as int, r),
    ensures
        ({
            let o1 = dispatch(a.setup(), a.framing(), e1).1;
            let o2 = dispatch(a.setup(), a.framing(), e2).1;
            &&& o1 is Displayed && o2 is Displayed
            &&& o1->Displayed_0.y == r && o2->Displayed_0.y == r
            &&& if crate::snakes::sweeps_forward(a.snake.geometry.bidir, r) {
                o1->Displayed_0.x <= o2->Displayed_0.x
            } else {
                o1->Displayed_0.x >= o2->Displayed_0.x
            }
        }),
{
    let k = pmt_index(role(a.setup().inputs, e1.channel as int));
    crate::snakes::lemma_sweep_within_row(&a.snake, e1.time as int, e2.time as int, k as usize, r);
}

/// The processing state of an acquisition: the snake, the channel roles,
/// the framing counters and the frame buffers.
pub struct AppState {
    pub snake: Snake,
    pub inputs: Inputs,
    pub rows_per_frame: u32,
    pub line_count: u32,
    pub lines_vec: Vec<Picosecond>,
    pub frame_buffers: FrameBuffers,
    pub awaiting_sync: bool,
}

impl AppState {
    pub open spec fn wf(&self) -> bool {
        &&& self.snake.wf()
        &&& self.inputs.wf()
        &&& self.rows_per_frame == self.snake.geometry.rows
        &&& self.line_count <= self.rows_per_frame
    }

    pub open spec fn setup(&self) -> Setup {
        Setup {
            inputs: self.inputs.table@,
            geometry: self.snake.geometry,
            bins: self.snake.bins@,
            rows_per_frame: self.rows_per_frame,
            increment: self.frame_buffers.increment_color_by,
        }
    }

    pub open spec fn framing(&self) -> FramingState {
        FramingState { snake: self.snake.state, line_count: self.line_count, lines: self.lines_vec@ }
    }

    pub open spec fn model(&self) -> Model {
        Model {
            framing: self.framing(),
            buffers: self.frame_buffers.view(),
            awaiting_sync: self.awaiting_sync,
        }
    }

    /// The processing state for `config`: no line counted yet, empty buffers,
    /// and events dispatched from the first one on.
    pub fn new(config: &AppConfig, row_profile: &Vec<i64>) -> (r: AppState)
        requires
            config.wf(),
            valid_profile(
                row_profile@,
                config.columns as int,
                geometry_of(config).active as int,
            ),
        ensures
            r.wf(),
            r.snake.geometry == geometry_of(config),
            r.snake.bins@ == frame_table(geometry_of(config), row_profile@, config.rows as nat),
            r.snake.state == (SnakeState { frame_origin: 0, tag_origin: None, last_laser: None }),
            forall|ch: int| #[trigger] r.inputs.spec_get(ch) == config.data_type_of(ch),
            r.rows_per_frame == config.rows,
            r.line_count == 0,
            r.lines_vec@.len() == 0,
            r.frame_buffers.increment_color_by == config.increment_color_by,
            forall|c: int| 0 <= c <= 4 ==> #[trigger] r.frame_buffers.channel(c).is_empty(),
            !r.awaiting_sync,
    {
        let snake = Self::choose_snake_variant(config, row_profile);
        let fb = FrameBuffers::new(config.increment_color_by);
        let r = AppState {
            snake,
            inputs: Inputs::from_config(config),
            rows_per_frame: config.rows,
            line_count: 0,
            lines_vec: Vec::new(),
            frame_buffers: fb,
            awaiting_sync: false,
        };
        assert forall|c: int| 0 <= c <= 4 implies #[trigger] r.frame_buffers.channel(c).is_empty() by {
            assert(r.frame_buffers.channel(c) == Map::<VoxelKey, Rgb>::empty());
        }
        r
    }

    /// The snake of `config`: two-dimensional for at most one plane, a
    /// volume otherwise; its first frame starts at time zero.
    fn choose_snake_variant(config: &AppConfig, row_profile: &Vec<i64>) -> (r: Snake)
        requires
            config.wf(),
            valid_profile(
                row_profile@,
                config.columns as int,
                geometry_of(config).active as int,
            ),
        ensures
            r.wf(),
            r.geometry == geometry_of(config),
            r.bins@ == frame_table(geometry_of(config), row_profile@, config.rows as nat),
            r.state == (SnakeState { frame_origin: 0, tag_origin: None, last_laser: None }),
    {
        Snake::from_acq_params(config, row_profile, 0)
    }

    /// A line signal at `time`.
    fn handle_line_event(&mut self, time: Picosecond) -> (r: ProcessedEvent)
        requires
            old(self).wf(),
        ensures
            final(self).wf(),
            final(self).setup() == old(self).setup(),
            final(self).framing() == on_line(old(self).rows_per_frame, old(self).framing(), time as int).0,
            r == on_line(old(self).rows_per_frame, old(self).framing(), time as int).1,
            final(self).frame_buffers == old(self).frame_buffers,
            final(self).awaiting_sync == old(self).awaiting_sync,
    {
        if self.line_count == self.rows_per_frame {
            self.line_count = 0;
            self.lines_vec = Vec::new();
            self.snake.update_snake_for_next_frame(time);
            ProcessedEvent::LineNewFrame
        } else {
            self.line_count += 1;
            self.lines_vec.push(time);
            ProcessedEvent::NoOp
        }
    }

    /// A frame signal at `time`.
    fn handle_frame_event(&mut self, time: Picosecond) -> (r: ProcessedEvent)
        requires
            old(self).wf(),
        ensures
            final(self).wf(),
            final(self).setup() == old(self).setup(),
            final(self).framing() == on_frame(old(self).framing(), time as int).0,
            r == on_frame(old(self).framing(), time as int).1,
            final(self).frame_buffers == old(self).frame_buffers,
            final(self).awaiting_sync == old(self).awaiting_sync,
    {
        self.line_count = 0;
        self.lines_vec = Vec::new();
        self.snake.update_snake_for_next_frame(time);
        ProcessedEvent::FrameNewFrame
    }

    /// Interprets one event: overflow records and unknown channels are
    /// ignored, photons are placed by the snake, and line, frame, TAG-lens
    /// and laser signals update the framing state.
    pub fn event_to_coordinate(&mut self, event: Event) -> (r: ProcessedEvent)
        requires
            old(self).wf(),
        ensures
            final(self).wf(),
            final(self).setup() == old(self).setup(),
            final(self).framing() == dispatch(old(self).setup(), old(self).framing(), event).0,
            r == dispatch(old(self).setup(), old(self).framing(), event).1,
            final(self).frame_buffers == old(self).frame_buffers,
            final(self).awaiting_sync == old(self).awaiting_sync,
            r matches ProcessedEvent::Displayed(p, c) ==> c < 4 && p.x < old(self).snake.geometry.columns
                && p.y < old(self).snake.geometry.rows && (old(self).snake.geometry.planes <= 1
                ==> p.z == 0),
    {
        if event.type_ != 0 {
            return ProcessedEvent::NoOp;
        }
        match self.inputs.get(event.channel) {
            DataType::Pmt1 => self.snake.time_to_coord_linear(event.time, 0),
            DataType::Pmt2 => self.snake.time_to_coord_linear(event.time, 1),
            DataType::Pmt3 => self.snake.time_to_coord_linear(event.time, 2),
            DataType::Pmt4 => self.snake.time_to_coord_linear(event.time, 3),
            DataType::Line => self.handle_line_event(event.time),
            DataType::TagLens => self.snake.new_taglens_period(event.time),
            DataType::Laser => self.snake.new_laser_event(event.time),
            DataType::Frame => self.handle_frame_event(event.time),
            DataType::Invalid => ProcessedEvent::NoOp,
        }
    }

    /// Acts on one event: a drawn photon goes to the frame buffers; a signal
    /// that ends the frame is returned.
    pub fn act_on_single_event(&mut self, event: Event) -> (r: Option<ProcessedEvent>)
        requires
            old(self).wf(),
        ensures
            final(self).wf(),
            final(self).setup() == old(self).setup(),
            (final(self).model(), r) == act(old(self).setup(), old(self).model(), event),
    {
        match self.event_to_coordinate(event) {
            ProcessedEvent::Displayed(point, channel) => {
                self.frame_buffers.add_to_render_queue(point, channel);
                None
            },
            ProcessedEvent::NoOp => None,
            ProcessedEvent::FrameNewFrame => Some(ProcessedEvent::FrameNewFrame),
            ProcessedEvent::PhotonNewFrame => Some(ProcessedEvent::PhotonNewFrame),
            ProcessedEvent::LineNewFrame => Some(ProcessedEvent::LineNewFrame),
            ProcessedEvent::Error => None,
        }
    }

    /// The index of the first line or frame signal in `events`.
    fn find_sync(&self, events: &Vec<Event>) -> (k: usize)
        requires
            self.wf(),
        ensures
            k == first_sync_from(self.setup(), events@, 0),
    {
        let ghost c = self.setup();
        let mut i: usize = 0;
        while i < events.len()
            invariant
                self.wf(),
                c == self.setup(),
                0 <= i <= events@.len(),
                forall|j: int| 0 <= j < i ==> !is_sync(c, #[trigger] events@[j]),
            decreases events@.len() - i,
        {
            let e = events[i];
            if e.type_ == 0 {
                let role = self.inputs.get(e.channel);
                if role == DataType::Line || role == DataType::Frame {
                    proof {
                        lemma_first_sync_from(c, events@, 0, i as int);
                    }
                    return i;
                }
            }
            i += 1;
        }
        proof {
            lemma_first_sync_from(c, events@, 0, events@.len() as int);
        }
        i
    }

    /// Looks for the first line or frame signal and starts a frame there,
    /// returning the events after it. Without events, or with none of them a
    /// signal, nothing is returned and the search goes on with the next
    /// batch.
    pub fn advance_till_first_frame_line(&mut self, event_stream: Option<Vec<Event>>) -> (r: Option<
        Vec<Event>,
    >)
        requires
            old(self).wf(),
        ensures
            final(self).wf(),
            final(self).setup() == old(self).setup(),
            (final(self).model(), opt_view(r)) == match event_stream {
                None => (Model { awaiting_sync: true, ..old(self).model() }, None),
                Some(evs) => search(old(self).setup(), old(self).model(), evs@),
            },
    {
        match event_stream {
            None => {
                self.awaiting_sync = true;
                None
            },
            Some(events) => {
                let k = self.find_sync(&events);
                if k < events.len() {
                    let e = events[k];
                    let is_line = self.inputs.get(e.channel) == DataType::Line;
                    self.lines_vec = Vec::new();
                    self.line_count = if is_line {
                        1
                    } else {
                        0
                    };
                    self.snake.update_snake_for_next_frame(e.time);
                    self.awaiting_sync = false;
                    let rest = tail_of(&events, k + 1);
                    assert(self.lines_vec@ =~= Seq::<Picosecond>::empty());
                    Some(rest)
                } else {
                    self.awaiting_sync = true;
                    None
                }
            },
        }
    }

    /// Acts on `events` up to the end of the frame, and returns the events
    /// after the one that ended it. After a photon beyond the frame, the
    /// events up to the next line or frame signal are skipped.
    pub fn drain_existing_data(&mut self, events: &Vec<Event>) -> (r: Option<Vec<Event>>)
        requires
            old(self).wf(),
        ensures
            final(self).wf(),
            final(self).setup() == old(self).setup(),
            (final(self).model(), opt_view(r)) == drain(old(self).setup(), old(self).model(), events@),
    {
        let ghost c = self.setup();
        let ghost goal = drain(c, self.model(), events@);
        assert(events@.subrange(0, events@.len() as int) =~= events@);
        let mut i: usize = 0;
        while i < events.len()
            invariant
                self.wf(),
                c == self.setup(),
                c == old(self).setup(),
                goal == drain(old(self).setup(), old(self).model(), events@),
                0 <= i <= events@.len(),
                drain(c, self.model(), events@.subrange(i as int, events@.len() as int)) == goal,
            decreases events@.len() - i,
        {
            let ghost rest = events@.subrange(i as int, events@.len() as int);
            assert(rest[0] == events@[i as int]);
            assert(rest.subrange(1, rest.len() as int) =~= events@.subrange(
                i + 1,
                events@.len() as int,
            ));
            match self.act_on_single_event(events[i]) {
                Some(ProcessedEvent::PhotonNewFrame) => {
                    let after = tail_of(events, i + 1);
                    return self.advance_till_first_frame_line(Some(after));
                },
                Some(_) => {
                    return Some(tail_of(events, i + 1));
                },
                None => {},
            }
            i += 1;
        }
        None
    }

    /// Feeds events to the current frame: the leftover events of the last
    /// frame, or a new batch. Returns the events after the end of the frame,
    /// or nothing if the frame goes on past them.
    pub fn populate_single_frame(&mut self, events_after_newframe: Option<Vec<Event>>) -> (r:
        Option<Vec<Event>>)
        requires
            old(self).wf(),
        ensures
            final(self).wf(),
            final(self).setup() == old(self).setup(),
            (final(self).model(), opt_view(r)) == populate(
                old(self).setup(),
                old(self).model(),
                opt_view(events_after_newframe),
            ),
    {
        match events_after_newframe {
            None => None,
            Some(events) => {
                if self.awaiting_sync {
                    self.advance_till_first_frame_line(Some(events))
                } else {
                    self.drain_existing_data(&events)
                }
            },
        }
    }

    /// The number of lines seen in the current frame.
    pub fn line_count(&self) -> (r: u32)
        ensures
            r == self.line_count,
    {
        self.line_count
    }

    /// The times of the lines counted in the current frame.
    pub fn lines(&self) -> (r: &Vec<Picosecond>)
        ensures
            r@ == self.lines_vec@,
    {
        &self.lines_vec
    }
}

} // verus!
