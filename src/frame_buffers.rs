//! Per-channel accumulators from voxel to color.
use vstd::prelude::*;

use crate::snakes::ImageCoor;
use crate::SUPPORTED_SPECTRAL_CHANNELS;

verus! {

/// Full intensity of a color component; colors are counted in units of
/// `1 / COLOR_FULL`.
pub const COLOR_FULL: u32 = 1_000_000;

/// A voxel as a map key: column, row, plane.
pub type VoxelKey = (u32, u32, u32);

/// A color: red, green and blue, each in `0..=COLOR_FULL`.
pub type Rgb = (u32, u32, u32);

/// The map without entries.
pub open spec fn no_voxels() -> Map<VoxelKey, Rgb> {
    Map::empty()
}

/// A map from voxel to color, held in a hashbrown map.
///
/// The map is a private field of an opaque struct because hashbrown's map
/// type cannot be declared to the verifier with its own bounds: its
/// allocator parameter is bounded by a trait that hashbrown does not export.
/// Its entries are named by [`voxel_map_contents`].
#[verifier::external_body]
pub struct VoxelMap {
    map: hashbrown::HashMap<VoxelKey, Rgb>,
}

/// The entries of a voxel map.
pub uninterp spec fn voxel_map_contents(m: VoxelMap) -> Map<VoxelKey, Rgb>;

impl VoxelMap {
    pub open spec fn view(&self) -> Map<VoxelKey, Rgb> {
        voxel_map_contents(*self)
    }

    /// Relies on hashbrown's `HashMap::new`: the map is empty.
    #[verifier::external_body]
    pub(crate) fn new() -> (r: VoxelMap)
        ensures
            voxel_map_contents(r) == no_voxels(),
    {
        VoxelMap { map: hashbrown::HashMap::new() }
    }

    /// Relies on hashbrown's `HashMap::get`: the value stored at `k`, if any.
    #[verifier::external_body]
    pub(crate) fn get(&self, k: &VoxelKey) -> (r: Option<Rgb>)
        ensures
            r == (if voxel_map_contents(*self).contains_key(*k) {
                Some(voxel_map_contents(*self)[*k])
            } else {
                None
            }),
    {
        self.map.get(k).copied()
    }

    /// Relies on hashbrown's `HashMap::insert`: `k` maps to `v` afterwards,
    /// and no other key changes.
    #[verifier::external_body]
    pub(crate) fn insert(&mut self, k: VoxelKey, v: Rgb)
        ensures
            voxel_map_contents(*final(self)) == voxel_map_contents(*old(self)).insert(k, v),
    {
        self.map.insert(k, v);
    }

    /// Relies on hashbrown's `HashMap::clear`: the map is empty afterwards.
    #[verifier::external_body]
    pub(crate) fn clear(&mut self)
        ensures
            voxel_map_contents(*final(self)) == no_voxels(),
    {
        self.map.clear();
    }

    /// Relies on hashbrown's `HashMap::clone`: the copy holds the same
    /// entries.
    #[verifier::external_body]
    pub(crate) fn snapshot(&self) -> (r: VoxelMap)
        ensures
            voxel_map_contents(r) == voxel_map_contents(*self),
    {
        VoxelMap { map: self.map.clone() }
    }

    /// Relies on hashbrown's `HashMap::iter`: every entry once, in an
    /// arbitrary order.
    #[verifier::external_body]
    pub(crate) fn entries(&self) -> (r: Vec<(VoxelKey, Rgb)>)
        ensures
            forall|i: int|
                0 <= i < r@.len() ==> voxel_map_contents(*self).contains_key(#[trigger] r@[i].0) && voxel_map_contents(*self)[r@[i].0]
                    == r@[i].1,
            forall|k: VoxelKey|
                #[trigger] voxel_map_contents(*self).contains_key(k) ==> exists|i: int|
                    0 <= i < r@.len() && #[trigger] r@[i].0 == k,
            forall|i: int, j: int| 0 <= i < j < r@.len() ==> r@[i].0 != r@[j].0,
    {
        self.map.iter().map(|(k, v)| (*k, *v)).collect()
    }
}

/// One component after one more hit: `increment` more, saturating at full
/// intensity.
pub open spec fn bump(c: u32, increment: u32) -> u32 {
    if c + increment >= COLOR_FULL {
        COLOR_FULL
    } else {
        (c + increment) as u32
    }
}

/// The map after one more hit at voxel `k`.
pub open spec fn add_hit(m: Map<VoxelKey, Rgb>, k: VoxelKey, increment: u32) -> Map<VoxelKey, Rgb> {
    let c: Rgb = if m.contains_key(k) {
        m[k]
    } else {
        (0, 0, 0)
    };
    m.insert(k, (bump(c.0, increment), bump(c.1, increment), bump(c.2, increment)))
}

pub open spec fn key_of(p: ImageCoor) -> VoxelKey {
    (p.x, p.y, p.z)
}

/// The color components after `k` hits on a voxel that had none.
pub open spec fn hits(k: nat, increment: u32) -> u32
    decreases k,
{
    if k == 0 {
        0
    } else {
        bump(hits((k - 1) as nat, increment), increment)
    }
}

/// A map after `k` hits at voxel `v`.
pub open spec fn add_hits(m: Map<VoxelKey, Rgb>, v: VoxelKey, increment: u32, k: nat) -> Map<
    VoxelKey,
    Rgb,
>
    decreases k,
{
    if k == 0 {
        m
    } else {
        add_hit(add_hits(m, v, increment, (k - 1) as nat), v, increment)
    }
}

/// Colors are saturating sums: after `k` hits on a voxel that had none, each
/// component is `k` increments, or full intensity if that is less.
pub proof fn lemma_saturating_sum(m: Map<VoxelKey, Rgb>, v: VoxelKey, increment: u32, k: nat)
    requires
        !m.contains_key(v),
    ensures
        add_hits(m, v, increment, k).contains_key(v) || k == 0,
        k > 0 ==> add_hits(m, v, increment, k)[v] == (
            hits(k, increment),
            hits(k, increment),
            hits(k, increment),
        ),
        hits(k, increment) == if k * increment >= COLOR_FULL {
            COLOR_FULL as int
        } else {
            k * increment
        },
    decreases k,
{
    if k > 0 {
        let j = (k - 1) as nat;
        lemma_saturating_sum(m, v, increment, j);
        let prev = add_hits(m, v, increment, j);
        if j == 0 {
            assert(prev == m);
            assert(hits(j, increment) == 0);
        }
        assert(add_hits(m, v, increment, k) == add_hit(prev, v, increment));
        assert(k * increment == j * increment + increment) by (nonlinear_arith)
            requires
                k == j + 1,
        ;
        assert(j * increment >= 0) by (nonlinear_arith);
    }
}

/// The frame buffers: one map per spectral channel, and the merge of all.
pub struct FrameBuffers {
    pub channel1: VoxelMap,
    pub channel2: VoxelMap,
    pub channel3: VoxelMap,
    pub channel4: VoxelMap,
    pub channel_merge: VoxelMap,
    /// What a hit adds to each color component.
    pub increment_color_by: u32,
}

impl FrameBuffers {
    /// The map of channel `c`: the spectral channels from zero, then the
    /// merge channel.
    pub open spec fn channel(&self, c: int) -> Map<VoxelKey, Rgb> {
        if c == 0 {
            self.channel1.view()
        } else if c == 1 {
            self.channel2.view()
        } else if c == 2 {
            self.channel3.view()
        } else if c == 3 {
            self.channel4.view()
        } else {
            self.channel_merge.view()
        }
    }

    /// All maps, the merge channel last.
    pub open spec fn view(&self) -> Seq<Map<VoxelKey, Rgb>> {
        seq![
            self.channel(0),
            self.channel(1),
            self.channel(2),
            self.channel(3),
            self.channel(4),
        ]
    }

    /// Empty buffers.
    pub fn new(increment_color_by: u32) -> (r: FrameBuffers)
        ensures
            r.increment_color_by == increment_color_by,
            forall|c: int| 0 <= c <= 4 ==> #[trigger] r.channel(c) == no_voxels(),
    {
        FrameBuffers {
            channel1: VoxelMap::new(),
            channel2: VoxelMap::new(),
            channel3: VoxelMap::new(),
            channel4: VoxelMap::new(),
            channel_merge: VoxelMap::new(),
            increment_color_by,
        }
    }

    fn bump_exec(c: u32, increment: u32) -> (r: u32)
        ensures
            r == bump(c, increment),
    {
        let s: u64 = (c as u64) + (increment as u64);
        if s >= COLOR_FULL as u64 {
            COLOR_FULL
        } else {
            s as u32
        }
    }

    fn add_to_map(m: &mut VoxelMap, k: VoxelKey, increment: u32)
        ensures
            final(m).view() == add_hit(old(m).view(), k, increment),
    {
        let c: Rgb = match m.get(&k) {
            Some(c) => c,
            None => (0, 0, 0),
        };
        let v: Rgb = (
            Self::bump_exec(c.0, increment),
            Self::bump_exec(c.1, increment),
            Self::bump_exec(c.2, increment),
        );
        m.insert(k, v);
    }

    /// Adds one hit at `point` to spectral channel `channel` and to the
    /// merge channel.
    pub fn add_to_render_queue(&mut self, point: ImageCoor, channel: usize)
        requires
            channel < SUPPORTED_SPECTRAL_CHANNELS,
        ensures
            final(self).increment_color_by == old(self).increment_color_by,
            final(self).view() == old(self).view().update(
                channel as int,
                add_hit(old(self).channel(channel as int), key_of(point), old(self).increment_color_by),
            ).update(
                4,
                add_hit(old(self).channel(4), key_of(point), old(self).increment_color_by),
            ),
    {
        let k: VoxelKey = (point.x, point.y, point.z);
        let inc = self.increment_color_by;
        if channel == 0 {
            Self::add_to_map(&mut self.channel1, k, inc);
        } else if channel == 1 {
            Self::add_to_map(&mut self.channel2, k, inc);
        } else if channel == 2 {
            Self::add_to_map(&mut self.channel3, k, inc);
        } else {
            Self::add_to_map(&mut self.channel4, k, inc);
        }
        Self::add_to_map(&mut self.channel_merge, k, inc);
        assert(self.view() =~= old(self).view().update(
            channel as int,
            add_hit(old(self).channel(channel as int), k, inc),
        ).update(4, add_hit(old(self).channel(4), k, inc)));
    }

    /// A deep copy, for the serializer.
    pub fn clone_snapshot(&self) -> (r: FrameBuffers)
        ensures
            r.view() == self.view(),
            r.increment_color_by == self.increment_color_by,
    {
        FrameBuffers {
            channel1: self.channel1.snapshot(),
            channel2: self.channel2.snapshot(),
            channel3: self.channel3.snapshot(),
            channel4: self.channel4.snapshot(),
            channel_merge: self.channel_merge.snapshot(),
            increment_color_by: self.increment_color_by,
        }
    }

    /// Empties the spectral channels; the merge channel is kept.
    pub fn clear_non_rendered_channels(&mut self)
        ensures
            final(self).increment_color_by == old(self).increment_color_by,
            final(self).view() == seq![
                no_voxels(),
                no_voxels(),
                no_voxels(),
                no_voxels(),
                old(self).channel(4),
            ],
    {
        self.channel1.clear();
        self.channel2.clear();
        self.channel3.clear();
        self.channel4.clear();
        assert(self.view() =~= seq![
            no_voxels(),
            no_voxels(),
            no_voxels(),
            no_voxels(),
            old(self).channel(4),
        ]);
    }

    /// The entries of channel `c` (the merge channel is `4`), each once, in
    /// an arbitrary order.
    pub fn channel_entries(&self, c: usize) -> (r: Vec<(VoxelKey, Rgb)>)
        requires
            c <= SUPPORTED_SPECTRAL_CHANNELS,
        ensures
            forall|i: int|
                0 <= i < r@.len() ==> self.channel(c as int).contains_key(#[trigger] r@[i].0)
                    && self.channel(c as int)[r@[i].0] == r@[i].1,
            forall|k: VoxelKey|
                #[trigger] self.channel(c as int).contains_key(k) ==> exists|i: int|
                    0 <= i < r@.len() && #[trigger] r@[i].0 == k,
            forall|i: int, j: int| 0 <= i < j < r@.len() ==> r@[i].0 != r@[j].0,
    {
        if c == 0 {
            self.channel1.entries()
        } else if c == 1 {
            self.channel2.entries()
        } else if c == 2 {
            self.channel3.entries()
        } else if c == 3 {
            self.channel4.entries()
        } else {
            self.channel_merge.entries()
        }
    }

    /// Takes the entries of the merge channel for rendering, leaving it
    /// empty.
    pub fn drain_merged_channel(&mut self) -> (r: Vec<(VoxelKey, Rgb)>)
        ensures
            final(self).increment_color_by == old(self).increment_color_by,
            final(self).view() == old(self).view().update(4, no_voxels()),
            forall|i: int|
                0 <= i < r@.len() ==> old(self).channel(4).contains_key(#[trigger] r@[i].0)
                    && old(self).channel(4)[r@[i].0] == r@[i].1,
            forall|k: VoxelKey|
                #[trigger] old(self).channel(4).contains_key(k) ==> exists|i: int|
                    0 <= i < r@.len() && #[trigger] r@[i].0 == k,
            forall|i: int, j: int| 0 <= i < j < r@.len() ==> r@[i].0 != r@[j].0,
    {
        let r = self.channel_merge.entries();
        self.channel_merge.clear();
        assert(self.view() =~= old(self).view().update(4, no_voxels()));
        r
    }
}

} // verus!
