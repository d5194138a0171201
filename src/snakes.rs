//! The trajectory model ("snake"): from a picosecond arrival time to a voxel.
//!
//! One frame is precomputed as a table of time bins, sorted by the time at
//! which each bin ends. A photon's offset into the frame selects the first bin
//! that ends at or after it.
use vstd::arithmetic::div_mod::{
    lemma_div_by_multiple, lemma_div_is_ordered, lemma_div_multiples_vanish, lemma_mod_pos_bound,
};
use vstd::prelude::*;

use crate::configuration::{AppConfig, Bidirectionality, FILL_FRACTION_FULL};
use crate::point_cloud_renderer::ProcessedEvent;

verus! {

/// A count of picoseconds from an epoch.
pub type Picosecond = i64;

/// A voxel of the image: column, row and plane indices. Its normalized
/// coordinates are `x / columns`, `y / rows` and `z / planes` (see
/// [`VoxelDelta`]), each in `[0, 1)`.
#[derive(Debug, Clone, Copy, PartialEq, Eq, Structural, Hash)]
pub struct ImageCoor {
    pub x: u32,
    pub y: u32,
    pub z: u32,
}

impl ImageCoor {
    pub fn new(x: u32, y: u32, z: u32) -> (r: ImageCoor)
        ensures
            r == (ImageCoor { x, y, z }),
    {
        ImageCoor { x, y, z }
    }
}

/// The number of voxels along each axis; the normalized step of an axis is
/// one over its count.
#[derive(Debug, Clone, Copy, PartialEq, Eq, Structural)]
pub struct VoxelDelta {
    pub columns: u32,
    pub rows: u32,
    pub planes: u32,
}

/// One bin of the frame table: the offset into the frame at which it ends,
/// the voxel it stands for, and whether photons in it are drawn.
#[derive(Debug, Clone, Copy, PartialEq, Eq, Structural)]
pub struct Bin {
    pub t_end: Picosecond,
    pub column: u32,
    pub row: u32,
    pub active: bool,
}

/// The fixed timing of a frame.
///
/// Each row lasts `row_period`: first `lead` picoseconds outside the field
/// of view, then `active` picoseconds over it, then the rest outside again.
#[derive(Debug, Clone, Copy, PartialEq, Eq, Structural)]
pub struct Geometry {
    pub rows: u32,
    pub columns: u32,
    pub planes: u32,
    pub bidir: Bidirectionality,
    pub row_period: Picosecond,
    pub lead: Picosecond,
    pub active: Picosecond,
    pub frame_span: Picosecond,
    pub frame_dead_time: Picosecond,
    pub line_shift: Picosecond,
    pub tag_period: Picosecond,
}

impl Geometry {
    /// The time after the field of view, at the end of each row.
    pub open spec fn trail(&self) -> int {
        self.row_period - self.lead - self.active
    }

    pub open spec fn wf(&self) -> bool {
        &&& self.rows >= 1
        &&& self.columns >= 1
        &&& self.row_period >= 1
        &&& self.lead >= 0
        &&& self.active >= 0
        &&& self.trail() >= 0
        &&& self.frame_span == self.rows * self.row_period
        &&& self.frame_dead_time >= 0
        &&& self.frame_span + self.frame_dead_time <= i64::MAX
        &&& self.planes >= 2 ==> self.tag_period > 0
    }
}

/// The timing of a frame under a configuration.
pub open spec fn geometry_of(config: &AppConfig) -> Geometry {
    let rp = config.row_period();
    let active = rp * config.fill_fraction / (FILL_FRACTION_FULL as int);
    Geometry {
        rows: config.rows,
        columns: config.columns,
        planes: config.planes,
        bidir: config.bidir,
        row_period: rp as i64,
        lead: ((rp - active) / 2) as i64,
        active: active as i64,
        frame_span: config.frame_span() as i64,
        frame_dead_time: config.frame_dead_time,
        line_shift: config.line_shift,
        tag_period: config.tag_period,
    }
}

/// A row profile: for each column, in the order the beam meets them, the
/// offset into the active part of the row at which the column ends.
pub open spec fn valid_profile(p: Seq<i64>, columns: int, active: int) -> bool {
    &&& p.len() == columns
    &&& columns >= 1
    &&& p[columns - 1] == active
    &&& forall|k: int| 0 <= k < columns ==> 0 <= #[trigger] p[k] <= active
    &&& forall|a: int, b: int| 0 <= a <= b < columns ==> #[trigger] p[a] <= #[trigger] p[b]
}

/// The column of the `k`-th column bin of row `row`: bidirectional scanning
/// sweeps odd rows from right to left.
pub open spec fn column_of(bidir: Bidirectionality, row: int, k: int, columns: int) -> int {
    if bidir == Bidirectionality::Bidir && row % 2 == 1 {
        columns - 1 - k
    } else {
        k
    }
}

/// Whether row `row` is swept from left to right.
pub open spec fn sweeps_forward(bidir: Bidirectionality, row: int) -> bool {
    !(bidir == Bidirectionality::Bidir && row % 2 == 1)
}

pub open spec fn column_bin(g: Geometry, p: Seq<i64>, r: int, k: int) -> Bin {
    Bin {
        t_end: (r * g.row_period + g.lead + p[k]) as i64,
        column: column_of(g.bidir, r, k, g.columns as int) as u32,
        row: r as u32,
        active: true,
    }
}

pub open spec fn lead_bins(g: Geometry, r: int) -> Seq<Bin> {
    if g.lead > 0 {
        seq![Bin { t_end: (r * g.row_period + g.lead) as i64, column: 0, row: r as u32, active: false }]
    } else {
        seq![]
    }
}

pub open spec fn trail_bins(g: Geometry, r: int) -> Seq<Bin> {
    if g.trail() > 0 {
        seq![Bin { t_end: ((r + 1) * g.row_period) as i64, column: 0, row: r as u32, active: false }]
    } else {
        seq![]
    }
}

/// The bins of row `r`: the time before the field of view, the columns in
/// the order the beam meets them, and the time after it.
pub open spec fn row_bins(g: Geometry, p: Seq<i64>, r: int) -> Seq<Bin> {
    lead_bins(g, r) + Seq::new(g.columns as nat, |k: int| column_bin(g, p, r, k)) + trail_bins(g, r)
}

/// The bins of the first `n` rows of a frame.
pub open spec fn frame_table(g: Geometry, p: Seq<i64>, n: nat) -> Seq<Bin>
    decreases n,
{
    if n == 0 {
        seq![]
    } else {
        frame_table(g, p, (n - 1) as nat) + row_bins(g, p, n - 1)
    }
}

pub open spec fn sorted_by_end(s: Seq<Bin>) -> bool {
    forall|i: int, j: int| 0 <= i <= j < s.len() ==> #[trigger] s[i].t_end <= #[trigger] s[j].t_end
}

/// Within a row, the active bins meet the columns in the row's direction.
pub open spec fn sweeps_in_direction(s: Seq<Bin>, bidir: Bidirectionality) -> bool {
    forall|i: int, j: int|
        0 <= i <= j < s.len() && #[trigger] s[i].active && #[trigger] s[j].active && s[i].row
            == s[j].row ==> if sweeps_forward(bidir, s[i].row as int) {
            s[i].column <= s[j].column
        } else {
            s[i].column >= s[j].column
        }
}

/// What the lookup relies on: a sorted table that ends with the frame, and
/// bins that name voxels of the image.
pub open spec fn table_wf(s: Seq<Bin>, g: Geometry) -> bool {
    &&& s.len() >= 1
    &&& sorted_by_end(s)
    &&& s.last().t_end == g.frame_span
    &&& forall|i: int|
        0 <= i < s.len() ==> (#[trigger] s[i]).column < g.columns && s[i].row < g.rows
    &&& sweeps_in_direction(s, g.bidir)
}

/// The first bin, from index `i` on, that ends at or after offset `d`.
pub open spec fn first_bin_from(s: Seq<Bin>, d: int, i: nat) -> int
    decreases s.len() - i,
{
    if i >= s.len() {
        s.len() as int
    } else if s[i as int].t_end >= d {
        i as int
    } else {
        first_bin_from(s, d, i + 1)
    }
}

/// The bin that holds offset `d`: the first that ends at or after it.
pub open spec fn bin_at(s: Seq<Bin>, d: int) -> int {
    first_bin_from(s, d, 0)
}

proof fn lemma_first_bin_from(s: Seq<Bin>, d: int, i: nat, k: int)
    requires
        i <= k < s.len(),
        s[k].t_end >= d,
        forall|j: int| 0 <= j < k ==> s[j].t_end < d,
    ensures
        first_bin_from(s, d, i) == k,
    decreases k - i,
{
    if i < k {
        lemma_first_bin_from(s, d, i + 1, k);
    }
}

proof fn lemma_first_bin_at_least(s: Seq<Bin>, d: int, i: nat)
    requires
        i <= s.len(),
    ensures
        i <= first_bin_from(s, d, i) <= s.len(),
    decreases s.len() - i,
{
    if i < s.len() && s[i as int].t_end < d {
        lemma_first_bin_at_least(s, d, i + 1);
    }
}

proof fn lemma_first_bin_monotone(s: Seq<Bin>, d1: int, d2: int, i: nat)
    requires
        d1 <= d2,
        i <= s.len(),
    ensures
        first_bin_from(s, d1, i) <= first_bin_from(s, d2, i),
    decreases s.len() - i,
{
    if i < s.len() {
        if s[i as int].t_end >= d1 {
            lemma_first_bin_at_least(s, d2, i);
        } else {
            lemma_first_bin_monotone(s, d1, d2, i + 1);
        }
    }
}

proof fn lemma_row_bins(g: Geometry, p: Seq<i64>, r: int)
    requires
        g.wf(),
        valid_profile(p, g.columns as int, g.active as int),
        0 <= r < g.rows,
    ensures
        row_bins(g, p, r).len() >= 1,
        row_bins(g, p, r).last().t_end == (r + 1) * g.row_period,
        forall|i: int|
            0 <= i < row_bins(g, p, r).len() ==> {
                let b = #[trigger] row_bins(g, p, r)[i];
                &&& r * g.row_period <= b.t_end <= (r + 1) * g.row_period
                &&& b.row == r
                &&& b.column < g.columns
            },
        sorted_by_end(row_bins(g, p, r)),
        sweeps_in_direction(row_bins(g, p, r), g.bidir),
{
    let rp = g.row_period as int;
    assert(0 <= r * rp && (r + 1) * rp <= g.rows * rp && (r + 1) * rp == r * rp + rp)
        by (nonlinear_arith)
        requires
            0 <= r < g.rows,
            rp >= 1,
    ;
    let lb = lead_bins(g, r);
    let cols = Seq::new(g.columns as nat, |k: int| column_bin(g, p, r, k));
    let tb = trail_bins(g, r);
    let rb = row_bins(g, p, r);
    assert(rb == lb + cols + tb);
    assert forall|i: int| 0 <= i < rb.len() implies {
        let b = #[trigger] rb[i];
        &&& r * rp <= b.t_end <= (r + 1) * rp
        &&& b.row == r
        &&& b.column < g.columns
    } by {
        if i < lb.len() {
        } else if i < lb.len() + cols.len() {
            let k = i - lb.len();
            assert(rb[i] == column_bin(g, p, r, k));
            assert(0 <= p[k] <= g.active);
        } else {
        }
    }
    assert forall|i: int, j: int| 0 <= i <= j < rb.len() implies #[trigger] rb[i].t_end
        <= #[trigger] rb[j].t_end by {
        if i < lb.len() {
            if j >= lb.len() && j < lb.len() + cols.len() {
                assert(0 <= p[j - lb.len()]);
            }
        } else if i < lb.len() + cols.len() {
            let k = i - lb.len();
            assert(p[k] <= g.active);
            if j < lb.len() + cols.len() {
                assert(p[k] <= p[j - lb.len()]);
            }
        }
    }
    assert forall|i: int, j: int|
        0 <= i <= j < rb.len() && #[trigger] rb[i].active && #[trigger] rb[j].active && rb[i].row
            == rb[j].row implies if sweeps_forward(g.bidir, rb[i].row as int) {
        rb[i].column <= rb[j].column
    } else {
        rb[i].column >= rb[j].column
    } by {
        assert(lb.len() <= i < lb.len() + cols.len());
        assert(lb.len() <= j < lb.len() + cols.len());
        assert(rb[i] == column_bin(g, p, r, i - lb.len()));
        assert(rb[j] == column_bin(g, p, r, j - lb.len()));
    }
    if tb.len() == 0 {
        assert(rb.last() == column_bin(g, p, r, g.columns - 1));
    }
}

proof fn lemma_frame_table(g: Geometry, p: Seq<i64>, n: nat)
    requires
        g.wf(),
        valid_profile(p, g.columns as int, g.active as int),
        n <= g.rows,
    ensures
        n >= 1 ==> frame_table(g, p, n).len() >= 1 && frame_table(g, p, n).last().t_end == n
            * g.row_period,
        forall|i: int|
            0 <= i < frame_table(g, p, n).len() ==> {
                let b = #[trigger] frame_table(g, p, n)[i];
                &&& 0 <= b.t_end <= n * g.row_period
                &&& b.row < n
                &&& b.column < g.columns
            },
        sorted_by_end(frame_table(g, p, n)),
        sweeps_in_direction(frame_table(g, p, n), g.bidir),
    decreases n,
{
    if n > 0 {
        let m = (n - 1) as nat;
        lemma_frame_table(g, p, m);
        lemma_row_bins(g, p, m as int);
        let rp = g.row_period as int;
        assert(0 <= m * rp && n * rp == m * rp + rp) by (nonlinear_arith)
            requires
                n == m + 1,
                rp >= 1,
        ;
        let left = frame_table(g, p, m);
        let right = row_bins(g, p, m as int);
        let t = frame_table(g, p, n);
        assert(t == left + right);
        assert forall|i: int| 0 <= i < t.len() implies {
            let b = #[trigger] t[i];
            &&& 0 <= b.t_end <= n * rp
            &&& b.row < n
            &&& b.column < g.columns
        } by {
            if i < left.len() {
                assert(t[i] == left[i]);
            } else {
                assert(t[i] == right[i - left.len()]);
            }
        }
        assert forall|i: int, j: int| 0 <= i <= j < t.len() implies #[trigger] t[i].t_end
            <= #[trigger] t[j].t_end by {
            if i < left.len() {
                assert(t[i] == left[i]);
                if j < left.len() {
                    assert(t[j] == left[j]);
                } else {
                    assert(t[j] == right[j - left.len()]);
                }
            } else {
                assert(t[i] == right[i - left.len()]);
                assert(t[j] == right[j - left.len()]);
            }
        }
        assert forall|i: int, j: int|
            0 <= i <= j < t.len() && #[trigger] t[i].active && #[trigger] t[j].active && t[i].row
                == t[j].row implies if sweeps_forward(g.bidir, t[i].row as int) {
            t[i].column <= t[j].column
        } else {
            t[i].column >= t[j].column
        } by {
            if i < left.len() {
                assert(t[i] == left[i]);
                if j < left.len() {
                    assert(t[j] == left[j]);
                } else {
                    assert(t[j] == right[j - left.len()]);
                }
            } else {
                assert(t[i] == right[i - left.len()]);
                assert(t[j] == right[j - left.len()]);
            }
        }
        assert(t.last() == right.last());
    }
}

/// The plane of a photon at time `t`: its phase within the TAG-lens period,
/// scaled to the number of planes. Always the first plane for a
/// two-dimensional scan, or before a zero crossing of the lens is known.
pub open spec fn plane_of(g: Geometry, st: SnakeState, t: int) -> int {
    if g.planes <= 1 {
        0
    } else {
        match st.tag_origin {
            None => 0,
            Some(o) => if t < o {
                0
            } else {
                ((t - o) % (g.tag_period as int)) * g.planes / (g.tag_period as int)
            },
        }
    }
}

/// Where a photon at time `t` on spectral channel `ch` goes, for a frame
/// with timing `g`, table `bins` and state `st`: nothing before the frame, a
/// new frame after its dead time, else the voxel of its bin if the bin is in
/// the field of view.
pub open spec fn coord_of(g: Geometry, bins: Seq<Bin>, st: SnakeState, t: int, ch: usize) -> ProcessedEvent {
    let delta = t - st.frame_origin;
    if delta < 0 {
        ProcessedEvent::NoOp
    } else if delta >= g.frame_span + g.frame_dead_time {
        ProcessedEvent::PhotonNewFrame
    } else {
        let d = delta - g.line_shift;
        if d < 0 || d >= g.frame_span {
            ProcessedEvent::NoOp
        } else {
            let b = bins[bin_at(bins, d)];
            if b.active {
                ProcessedEvent::Displayed(
                    ImageCoor { x: b.column, y: b.row, z: plane_of(g, st, t) as u32 },
                    ch,
                )
            } else {
                ProcessedEvent::NoOp
            }
        }
    }
}

/// The snake state after a new frame starts at time `t`.
pub open spec fn next_frame(st: SnakeState, t: int) -> SnakeState {
    SnakeState { frame_origin: t as i64, tag_origin: None, ..st }
}

proof fn lemma_first_bin_found(s: Seq<Bin>, d: int, i: nat)
    requires
        i < s.len(),
        s.last().t_end >= d,
    ensures
        i <= first_bin_from(s, d, i) < s.len(),
    decreases s.len() - i,
{
    if s[i as int].t_end < d {
        lemma_first_bin_found(s, d, i + 1);
    }
}

proof fn lemma_frame_table_all_active(g: Geometry, p: Seq<i64>, n: nat)
    requires
        g.lead == 0,
        g.trail() == 0,
    ensures
        forall|i: int| 0 <= i < frame_table(g, p, n).len() ==> (#[trigger] frame_table(g, p, n)[i]).active,
    decreases n,
{
    if n > 0 {
        let m = (n - 1) as nat;
        lemma_frame_table_all_active(g, p, m);
        let left = frame_table(g, p, m);
        let right = row_bins(g, p, m as int);
        assert(lead_bins(g, m as int) =~= Seq::<Bin>::empty());
        assert(trail_bins(g, m as int) =~= Seq::<Bin>::empty());
        assert forall|i: int| 0 <= i < frame_table(g, p, n).len() implies (#[trigger] frame_table(
            g,
            p,
            n,
        )[i]).active by {
            if i >= left.len() {
                assert(frame_table(g, p, n)[i] == right[i - left.len()]);
            } else {
                assert(frame_table(g, p, n)[i] == left[i]);
            }
        }
    }
}

/// With whole rows in the field of view and no line shift, every photon
/// that arrives within the rows of the current frame is drawn, at a voxel of
/// the image, on its own spectral channel.
pub proof fn lemma_photon_in_frame_displayed(s: &Snake, p: Seq<i64>, t: int, ch: usize)
    requires
        s.wf(),
        valid_profile(p, s.geometry.columns as int, s.geometry.active as int),
        s.bins@ == frame_table(s.geometry, p, s.geometry.rows as nat),
        s.geometry.active == s.geometry.row_period,
        s.geometry.line_shift == 0,
        s.state.frame_origin <= t < s.state.frame_origin + s.geometry.frame_span,
    ensures
        s.spec_time_to_coord(t, ch) is Displayed,
        s.spec_time_to_coord(t, ch)->Displayed_1 == ch,
        s.spec_time_to_coord(t, ch)->Displayed_0.x < s.geometry.columns,
        s.spec_time_to_coord(t, ch)->Displayed_0.y < s.geometry.rows,
{
    let d = t - s.state.frame_origin;
    lemma_first_bin_found(s.bins@, d, 0);
    lemma_frame_table_all_active(s.geometry, p, s.geometry.rows as nat);
    let i = bin_at(s.bins@, d);
    assert(s.bins@[i].active);
}

/// Along a row, later photons meet the columns in the row's sweep
/// direction: left to right, or right to left on the odd rows of a
/// bidirectional scan.
pub proof fn lemma_sweep_direction(s: &Snake, t1: int, t2: int, ch: usize)
    requires
        s.wf(),
        t1 <= t2,
        s.spec_time_to_coord(t1, ch) is Displayed,
        s.spec_time_to_coord(t2, ch) is Displayed,
        s.spec_time_to_coord(t1, ch)->Displayed_0.y == s.spec_time_to_coord(t2, ch)->Displayed_0.y,
    ensures
        ({
            let p1 = s.spec_time_to_coord(t1, ch)->Displayed_0;
            let p2 = s.spec_time_to_coord(t2, ch)->Displayed_0;
            if sweeps_forward(s.geometry.bidir, p1.y as int) {
                p1.x <= p2.x
            } else {
                p1.x >= p2.x
            }
        }),
{
    let b = s.bins@;
    let d1 = t1 - s.state.frame_origin - s.geometry.line_shift;
    let d2 = t2 - s.state.frame_origin - s.geometry.line_shift;
    lemma_first_bin_found(b, d1, 0);
    lemma_first_bin_found(b, d2, 0);
    lemma_first_bin_monotone(b, d1, d2, 0);
    let i = bin_at(b, d1);
    let j = bin_at(b, d2);
    assert(b[i].active && b[j].active && b[i].row == b[j].row);
}

proof fn lemma_frame_table_prefix(g: Geometry, p: Seq<i64>, n: nat, m: nat)
    requires
        n <= m,
    ensures
        frame_table(g, p, n).len() <= frame_table(g, p, m).len(),
        forall|i: int|
            0 <= i < frame_table(g, p, n).len() ==> #[trigger] frame_table(g, p, m)[i]
                == frame_table(g, p, n)[i],
    decreases m,
{
    if n < m {
        lemma_frame_table_prefix(g, p, n, (m - 1) as nat);
        let prev = frame_table(g, p, (m - 1) as nat);
        assert(frame_table(g, p, m) == prev + row_bins(g, p, m - 1));
        assert forall|i: int| 0 <= i < frame_table(g, p, n).len() implies #[trigger] frame_table(
            g,
            p,
            m,
        )[i] == frame_table(g, p, n)[i] by {
            assert(frame_table(g, p, m)[i] == prev[i]);
        }
    }
}

/// The first column, from `i` on, whose end is at or after offset `off`.
proof fn lemma_first_column(p: Seq<i64>, off: int, i: int) -> (k: int)
    requires
        0 <= i < p.len(),
        p.last() >= off,
        forall|j: int| 0 <= j < i ==> p[j] < off,
    ensures
        i <= k < p.len(),
        p[k] >= off,
        forall|j: int| 0 <= j < k ==> p[j] < off,
    decreases p.len() - i,
{
    if p[i] >= off {
        i
    } else {
        lemma_first_column(p, off, i + 1)
    }
}

/// A photon in the field of view of row `r` of the current frame is drawn
/// on row `r`, in the column of the profile that it falls in, whatever the
/// fill fraction and line shift. The field of view of row `r` is the offset
/// range `(r * row_period + lead, r * row_period + lead + active]`, offsets
/// counted from the frame origin plus the line shift.
pub proof fn lemma_photon_row(s: &Snake, t: int, ch: usize, r: int)
    requires
        s.wf(),
        0 <= r < s.geometry.rows,
        0 <= t - s.state.frame_origin < s.geometry.frame_span + s.geometry.frame_dead_time,
        r * s.geometry.row_period + s.geometry.lead < t - s.state.frame_origin - s.geometry.line_shift
            <= r * s.geometry.row_period + s.geometry.lead + s.geometry.active,
        t - s.state.frame_origin - s.geometry.line_shift < s.geometry.frame_span,
    ensures
        s.spec_time_to_coord(t, ch) is Displayed,
        s.spec_time_to_coord(t, ch)->Displayed_1 == ch,
        s.spec_time_to_coord(t, ch)->Displayed_0.y == r,
        s.spec_time_to_coord(t, ch)->Displayed_0.x < s.geometry.columns,
        exists|k: int|
            0 <= k < s.geometry.columns && s.row_profile@[k] >= t - s.state.frame_origin
                - s.geometry.line_shift - r * s.geometry.row_period - s.geometry.lead && (k == 0
                || s.row_profile@[k - 1] < t - s.state.frame_origin - s.geometry.line_shift - r
                * s.geometry.row_period - s.geometry.lead) && s.spec_time_to_coord(t, ch)->Displayed_0.x
                == #[trigger] column_of(s.geometry.bidir, r, k, s.geometry.columns as int),
{
    let g = s.geometry;
    let p = s.row_profile@;
    let rp = g.row_period as int;
    let d = t - s.state.frame_origin - g.line_shift;
    let base = r * rp;
    let off = d - base - g.lead;
    assert(0 <= r * rp && (r + 1) * rp <= g.rows * rp && (r + 1) * rp == r * rp + rp)
        by (nonlinear_arith)
        requires
            0 <= r < g.rows,
            rp >= 1,
    ;
    let k = lemma_first_column(p, off, 0);
    assert(0 <= p[k] <= g.active);
    assert(base + g.lead + p[k] <= i64::MAX);
    lemma_frame_table(g, p, r as nat);
    lemma_frame_table(g, p, g.rows as nat);
    lemma_frame_table_prefix(g, p, (r + 1) as nat, g.rows as nat);
    let left = frame_table(g, p, r as nat);
    let rb = row_bins(g, p, r);
    let lb = lead_bins(g, r);
    let cols = Seq::new(g.columns as nat, |j: int| column_bin(g, p, r, j));
    assert(frame_table(g, p, (r + 1) as nat) == left + rb);
    assert(rb == lb + cols + trail_bins(g, r));
    let idx = left.len() + lb.len() + k;
    let bins = s.bins@;
    assert(bins[idx] == column_bin(g, p, r, k)) by {
        assert((left + rb)[idx] == rb[lb.len() + k]);
    }
    assert forall|j: int| 0 <= j < idx implies bins[j].t_end < d by {
        assert(bins[j] == (left + rb)[j]);
        if j < left.len() {
            assert(left[j].t_end <= r * rp);
        } else if j < left.len() + lb.len() {
            assert(rb[j - left.len()] == lb[j - left.len()]);
        } else {
            let kk = j - left.len() - lb.len();
            assert(rb[j - left.len()] == cols[kk]);
            assert(p[kk] < off);
        }
    }
    lemma_first_bin_from(bins, d, 0, idx);
    assert(column_of(g.bidir, r, k, g.columns as int) < g.columns);
}

/// Along a row in the field of view, a later photon meets the columns in the
/// row's sweep direction, for any fill fraction and line shift.
pub proof fn lemma_sweep_within_row(s: &Snake, t1: int, t2: int, ch: usize, r: int)
    requires
        s.wf(),
        0 <= r < s.geometry.rows,
        t1 <= t2,
        0 <= t1 - s.state.frame_origin,
        t2 - s.state.frame_origin < s.geometry.frame_span + s.geometry.frame_dead_time,
        r * s.geometry.row_period + s.geometry.lead < t1 - s.state.frame_origin - s.geometry.line_shift,
        t2 - s.state.frame_origin - s.geometry.line_shift <= r * s.geometry.row_period + s.geometry.lead
            + s.geometry.active,
        t2 - s.state.frame_origin - s.geometry.line_shift < s.geometry.frame_span,
    ensures
        s.spec_time_to_coord(t1, ch) is Displayed,
        s.spec_time_to_coord(t2, ch) is Displayed,
        s.spec_time_to_coord(t1, ch)->Displayed_0.y == r,
        s.spec_time_to_coord(t2, ch)->Displayed_0.y == r,
        ({
            let p1 = s.spec_time_to_coord(t1, ch)->Displayed_0;
            let p2 = s.spec_time_to_coord(t2, ch)->Displayed_0;
            if sweeps_forward(s.geometry.bidir, r) {
                p1.x <= p2.x
            } else {
                p1.x >= p2.x
            }
        }),
{
    lemma_photon_row(s, t1, ch, r);
    lemma_photon_row(s, t2, ch, r);
    lemma_sweep_direction(s, t1, t2, ch);
}

/// The state of the snake that changes during an acquisition.
#[derive(Debug, Clone, Copy, PartialEq, Eq, Structural)]
pub struct SnakeState {
    /// The time at which the current frame started.
    pub frame_origin: Picosecond,
    /// The last zero crossing of the TAG lens in this frame, if any.
    pub tag_origin: Option<Picosecond>,
    /// The last laser pulse, if any.
    pub last_laser: Option<Picosecond>,
}

/// The trajectory of the scanner over one frame, and where the current frame
/// started.
pub struct Snake {
    pub geometry: Geometry,
    /// Where each column of a row ends, in the order the beam meets them.
    pub row_profile: Vec<i64>,
    pub bins: Vec<Bin>,
    pub state: SnakeState,
}

impl Snake {
    pub open spec fn wf(&self) -> bool {
        &&& self.geometry.wf()
        &&& table_wf(self.bins@, self.geometry)
        &&& valid_profile(self.row_profile@, self.geometry.columns as int, self.geometry.active as int)
        &&& self.bins@ == frame_table(self.geometry, self.row_profile@, self.geometry.rows as nat)
    }

    /// Where a photon at time `t` on spectral channel `ch` goes.
    pub open spec fn spec_time_to_coord(&self, t: int, ch: usize) -> ProcessedEvent {
        coord_of(self.geometry, self.bins@, self.state, t, ch)
    }

    /// The timing of a frame under `config`.
    pub fn geometry_from_config(config: &AppConfig) -> (g: Geometry)
        requires
            config.wf(),
        ensures
            g == geometry_of(config),
            g.wf(),
    {
        let rp = config.row_period_exec();
        let full: i128 = FILL_FRACTION_FULL as i128;
        assert(0 <= (rp as int) * (config.fill_fraction as int) <= (rp as int) * full) by (
        nonlinear_arith)
            requires
                rp >= 1,
                0 <= config.fill_fraction <= full,
        ;
        let active: i128 = (rp as i128) * (config.fill_fraction as i128) / full;
        proof {
            lemma_div_is_ordered(
                (rp as int) * (config.fill_fraction as int),
                (rp as int) * full,
                full as int,
            );
            lemma_div_by_multiple(rp as int, full as int);
            assert((rp as int) * full == full * (rp as int));
            lemma_div_multiples_vanish(rp as int, full as int);
            lemma_div_is_ordered(0, (rp as int) * (config.fill_fraction as int), full as int);
        }
        let lead: i128 = ((rp as i128) - active) / 2;
        let span: i128 = (config.rows as i128) * (rp as i128);
        assert(span == config.frame_span());
        let g = Geometry {
            rows: config.rows,
            columns: config.columns,
            planes: config.planes,
            bidir: config.bidir,
            row_period: rp,
            lead: lead as i64,
            active: active as i64,
            frame_span: span as i64,
            frame_dead_time: config.frame_dead_time,
            line_shift: config.line_shift,
            tag_period: config.tag_period,
        };
        g
    }

    /// Whether `p` is a row profile of `columns` columns over `active`
    /// picoseconds.
    pub fn is_valid_profile(p: &Vec<i64>, columns: u32, active: Picosecond) -> (r: bool)
        ensures
            r == valid_profile(p@, columns as int, active as int),
    {
        if columns == 0 || p.len() != columns as usize {
            return false;
        }
        if p[p.len() - 1] != active {
            return false;
        }
        let mut k: usize = 0;
        while k < p.len()
            invariant
                p@.len() == columns >= 1,
                p@[columns - 1] == active,
                0 <= k <= p@.len(),
                forall|j: int| 0 <= j < k ==> 0 <= #[trigger] p@[j] <= active,
                forall|a: int, b: int| 0 <= a <= b < k ==> #[trigger] p@[a] <= #[trigger] p@[b],
            decreases p@.len() - k,
        {
            if p[k] < 0 || p[k] > active {
                assert(!(0 <= p@[k as int] <= active));
                return false;
            }
            if k > 0 && p[k - 1] > p[k] {
                assert(!(p@[k - 1] <= p@[k as int]));
                return false;
            }
            assert forall|a: int, b: int| 0 <= a <= b < k + 1 implies #[trigger] p@[a]
                <= #[trigger] p@[b] by {
                if b == k && a < k {
                    assert(p@[a] <= p@[k - 1]);
                }
            }
            k += 1;
        }
        true
    }

    /// A row profile for a beam that crosses the field of view at constant
    /// speed: column `k` of `columns` ends at `(k + 1) * active / columns`.
    pub fn linear_row_profile(active: Picosecond, columns: u32) -> (p: Vec<i64>)
        requires
            active >= 0,
            columns >= 1,
        ensures
            valid_profile(p@, columns as int, active as int),
            forall|k: int|
                0 <= k < columns ==> #[trigger] p@[k] == (k + 1) * (active as int) / (
                columns as int),
    {
        let mut p: Vec<i64> = Vec::new();
        let mut k: u32 = 0;
        while k < columns
            invariant
                0 <= k <= columns,
                active >= 0,
                columns >= 1,
                p@.len() == k,
                forall|j: int|
                    0 <= j < k ==> #[trigger] p@[j] == (j + 1) * (active as int) / (columns as int),
            decreases columns - k,
        {
            assert(0 <= ((k as int) + 1) * (active as int) <= (columns as int) * (active as int)
                <= 0x1_0000_0000 * 0x8000_0000_0000_0000) by (nonlinear_arith)
                requires
                    0 <= k < columns <= 0xffff_ffff,
                    0 <= active <= 0x7fff_ffff_ffff_ffff,
            ;
            proof {
                lemma_div_is_ordered(
                    ((k as int) + 1) * (active as int),
                    (columns as int) * (active as int),
                    columns as int,
                );
                lemma_div_multiples_vanish(active as int, columns as int);
                lemma_div_is_ordered(0, ((k as int) + 1) * (active as int), columns as int);
            }
            let v: i128 = ((k as i128) + 1) * (active as i128) / (columns as i128);
            p.push(v as i64);
            k += 1;
        }
        assert forall|k: int| 0 <= k < columns implies 0 <= #[trigger] p@[k] <= active by {
            assert(0 <= (k + 1) * (active as int) <= (columns as int) * (active as int))
                by (nonlinear_arith)
                requires
                    0 <= k < columns,
                    active >= 0,
            ;
            lemma_div_is_ordered((k + 1) * (active as int), (columns as int) * (active as int), columns as int);
            lemma_div_multiples_vanish(active as int, columns as int);
            lemma_div_is_ordered(0, (k + 1) * (active as int), columns as int);
        }
        assert forall|a: int, b: int| 0 <= a <= b < columns implies #[trigger] p@[a]
            <= #[trigger] p@[b] by {
            assert((a + 1) * (active as int) <= (b + 1) * (active as int)) by (nonlinear_arith)
                requires
                    a <= b,
                    active >= 0,
            ;
            lemma_div_is_ordered((a + 1) * (active as int), (b + 1) * (active as int), columns as int);
        }
        assert(p@[columns - 1] == active) by {
            lemma_div_multiples_vanish(active as int, columns as int);
        }
        p
    }

    /// Builds the snake of `config`, with `row_profile` giving where each
    /// column of a row ends, and the first frame starting at `offset`.
    pub fn from_acq_params(config: &AppConfig, row_profile: &Vec<i64>, offset: Picosecond) -> (r:
        Snake)
        requires
            config.wf(),
            valid_profile(
                row_profile@,
                config.columns as int,
                geometry_of(config).active as int,
            ),
        ensures
            r.wf(),
            r.geometry == geometry_of(config),
            r.row_profile@ == row_profile@,
            r.bins@ == frame_table(r.geometry, row_profile@, config.rows as nat),
            r.state == (SnakeState { frame_origin: offset, tag_origin: None, last_laser: None }),
    {
        let g = Self::geometry_from_config(config);
        let ghost p = row_profile@;
        let mut bins: Vec<Bin> = Vec::new();
        let mut r: u32 = 0;
        while r < g.rows
            invariant
                g.wf(),
                valid_profile(p, g.columns as int, g.active as int),
                row_profile@ == p,
                0 <= r <= g.rows,
                bins@ == frame_table(g, p, r as nat),
            decreases g.rows - r,
        {
            let rp = g.row_period;
            assert(0 <= (r as int) * (rp as int) && (r as int) * (rp as int) + rp <= (g.rows as int)
                * (rp as int)) by (nonlinear_arith)
                requires
                    0 <= r < g.rows,
                    rp >= 1,
            ;
            let base: i64 = (r as i64) * rp;
            let ghost table = bins@;
            if g.lead > 0 {
                bins.push(Bin { t_end: base + g.lead, column: 0, row: r, active: false });
            }
            assert(bins@ == table + lead_bins(g, r as int));
            let ghost with_lead = bins@;
            let mut k: u32 = 0;
            while k < g.columns
                invariant
                    g.wf(),
                    valid_profile(p, g.columns as int, g.active as int),
                    row_profile@ == p,
                    0 <= r < g.rows,
                    base == (r as int) * (g.row_period as int),
                    base + g.row_period <= g.frame_span,
                    0 <= k <= g.columns,
                    bins@ == with_lead + Seq::new(k as nat, |j: int| column_bin(g, p, r as int, j)),
                decreases g.columns - k,
            {
                let column: u32 = if g.bidir == Bidirectionality::Bidir && r % 2 == 1 {
                    g.columns - 1 - k
                } else {
                    k
                };
                assert(0 <= p[k as int] <= g.active);
                let b = Bin { t_end: base + g.lead + row_profile[k as usize], column, row: r, active: true };
                assert(b == column_bin(g, p, r as int, k as int));
                bins.push(b);
                assert(Seq::new((k + 1) as nat, |j: int| column_bin(g, p, r as int, j)) =~= Seq::new(
                    k as nat,
                    |j: int| column_bin(g, p, r as int, j),
                ).push(b));
                k += 1;
            }
            let ghost cols = Seq::new(g.columns as nat, |j: int| column_bin(g, p, r as int, j));
            let ghost with_cols = bins@;
            if g.lead + g.active < g.row_period {
                assert((r as int + 1) * (rp as int) == base + rp) by (nonlinear_arith)
                    requires
                        base == (r as int) * (rp as int),
                ;
                bins.push(Bin { t_end: base + rp, column: 0, row: r, active: false });
            }
            assert(bins@ =~= with_cols + trail_bins(g, r as int));
            assert(row_bins(g, p, r as int) == lead_bins(g, r as int) + cols + trail_bins(g, r as int));
            assert(frame_table(g, p, (r + 1) as nat) == table + row_bins(g, p, r as int));
            assert(bins@ =~= frame_table(g, p, (r + 1) as nat));
            r += 1;
        }
        proof {
            lemma_frame_table(g, p, g.rows as nat);
            assert(g.rows * g.row_period == g.frame_span);
        }
        let mut profile: Vec<i64> = Vec::new();
        let mut k: usize = 0;
        while k < row_profile.len()
            invariant
                0 <= k <= row_profile@.len(),
                profile@ == row_profile@.subrange(0, k as int),
            decreases row_profile@.len() - k,
        {
            profile.push(row_profile[k]);
            assert(profile@ =~= row_profile@.subrange(0, k + 1));
            k += 1;
        }
        assert(profile@ =~= row_profile@);
        Snake {
            geometry: g,
            row_profile: profile,
            bins,
            state: SnakeState { frame_origin: offset, tag_origin: None, last_laser: None },
        }
    }

    /// The index of the bin that holds offset `d` into the frame.
    fn find_bin(&self, d: i64) -> (i: usize)
        requires
            self.wf(),
            0 <= d < self.geometry.frame_span,
        ensures
            i == bin_at(self.bins@, d as int),
            i < self.bins@.len(),
    {
        let ghost s = self.bins@;
        let mut lo: usize = 0;
        let mut hi: usize = self.bins.len() - 1;
        while lo < hi
            invariant
                s == self.bins@,
                table_wf(s, self.geometry),
                0 <= lo <= hi < s.len(),
                s[hi as int].t_end >= d,
                forall|j: int| 0 <= j < lo ==> s[j].t_end < d,
            decreases hi - lo,
        {
            let mid = lo + (hi - lo) / 2;
            if self.bins[mid].t_end >= d {
                hi = mid;
            } else {
                assert forall|j: int| 0 <= j <= mid implies s[j].t_end < d by {
                    assert(s[j].t_end <= s[mid as int].t_end);
                }
                lo = mid + 1;
            }
        }
        proof {
            lemma_first_bin_from(s, d as int, 0, lo as int);
        }
        lo
    }

    /// The plane of a photon at time `t`.
    fn plane(&self, t: Picosecond) -> (z: u32)
        requires
            self.wf(),
        ensures
            z == plane_of(self.geometry, self.state, t as int),
            self.geometry.planes <= 1 ==> z == 0,
            self.geometry.planes >= 2 ==> z < self.geometry.planes,
    {
        if self.geometry.planes <= 1 {
            return 0;
        }
        match self.state.tag_origin {
            None => 0,
            Some(o) => {
                if t < o {
                    0
                } else {
                    let tp = self.geometry.tag_period as u128;
                    let diff: u128 = ((t as i128) - (o as i128)) as u128;
                    let phase: u128 = diff % tp;
                    proof {
                        lemma_mod_pos_bound(diff as int, tp as int);
                    }
                    let planes = self.geometry.planes as u128;
                    assert(phase * planes < tp * planes <= 0x8000_0000_0000_0000 * 0x1_0000_0000)
                        by (nonlinear_arith)
                        requires
                            phase < tp <= 0x8000_0000_0000_0000,
                            1 <= planes <= 0x1_0000_0000,
                    ;
                    let z: u128 = phase * planes / tp;
                    proof {
                        lemma_div_is_ordered((phase * planes) as int, (tp * planes - 1) as int, tp as int);
                        assert((tp * planes - 1) / (tp as int) < planes) by (nonlinear_arith)
                            requires
                                tp >= 1,
                                planes >= 1,
                        ;
                    }
                    z as u32
                }
            },
        }
    }

    /// Where a photon at time `t` on spectral channel `ch` goes: a voxel, a
    /// signal that the frame is over, or nothing.
    pub fn time_to_coord_linear(&self, t: Picosecond, ch: usize) -> (r: ProcessedEvent)
        requires
            self.wf(),
        ensures
            r == self.spec_time_to_coord(t as int, ch),
            r matches ProcessedEvent::Displayed(p, c) ==> {
                &&& c == ch
                &&& p.x < self.geometry.columns
                &&& p.y < self.geometry.rows
                &&& self.geometry.planes <= 1 ==> p.z == 0
                &&& self.geometry.planes >= 2 ==> p.z < self.geometry.planes
            },
    {
        let g = self.geometry;
        let delta: i128 = (t as i128) - (self.state.frame_origin as i128);
        if delta < 0 {
            ProcessedEvent::NoOp
        } else if delta >= (g.frame_span as i128) + (g.frame_dead_time as i128) {
            ProcessedEvent::PhotonNewFrame
        } else {
            let d: i128 = delta - (g.line_shift as i128);
            if d < 0 || d >= g.frame_span as i128 {
                ProcessedEvent::NoOp
            } else {
                let i = self.find_bin(d as i64);
                let b = self.bins[i];
                if b.active {
                    let z = self.plane(t);
                    ProcessedEvent::Displayed(ImageCoor { x: b.column, y: b.row, z }, ch)
                } else {
                    ProcessedEvent::NoOp
                }
            }
        }
    }

    /// Starts a new frame at time `t`; the TAG-lens phase of the old frame is
    /// forgotten.
    pub fn update_snake_for_next_frame(&mut self, t: Picosecond)
        ensures
            final(self).geometry == old(self).geometry,
            final(self).bins@ == old(self).bins@,
            final(self).row_profile@ == old(self).row_profile@,
            final(self).state == next_frame(old(self).state, t as int),
    {
        self.state.frame_origin = t;
        self.state.tag_origin = None;
    }

    /// Records a zero crossing of the TAG lens at time `t`.
    pub fn new_taglens_period(&mut self, t: Picosecond) -> (r: ProcessedEvent)
        ensures
            r == ProcessedEvent::NoOp,
            final(self).geometry == old(self).geometry,
            final(self).bins@ == old(self).bins@,
            final(self).row_profile@ == old(self).row_profile@,
            final(self).state == (SnakeState { tag_origin: Some(t), ..old(self).state }),
    {
        self.state.tag_origin = Some(t);
        ProcessedEvent::NoOp
    }

    /// Records a laser pulse at time `t`.
    pub fn new_laser_event(&mut self, t: Picosecond) -> (r: ProcessedEvent)
        ensures
            r == ProcessedEvent::NoOp,
            final(self).geometry == old(self).geometry,
            final(self).bins@ == old(self).bins@,
            final(self).row_profile@ == old(self).row_profile@,
            final(self).state == (SnakeState { last_laser: Some(t), ..old(self).state }),
    {
        self.state.last_laser = Some(t);
        ProcessedEvent::NoOp
    }

    /// The number of voxels along each axis; a two-dimensional scan has one
    /// plane.
    pub fn get_voxel_delta_im(&self) -> (r: VoxelDelta)
        ensures
            r == (VoxelDelta {
                columns: self.geometry.columns,
                rows: self.geometry.rows,
                planes: if self.geometry.planes <= 1 {
                    1
                } else {
                    self.geometry.planes
                },
            }),
    {
        VoxelDelta {
            columns: self.geometry.columns,
            rows: self.geometry.rows,
            planes: if self.geometry.planes <= 1 {
                1
            } else {
                self.geometry.planes
            },
        }
    }
}

} // verus!
