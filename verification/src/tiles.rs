//! Streaming-tile bookkeeping: tile coordinates, the level of detail a tile
//! is drawn at, the debug state each tile is in, and the colour that state is
//! shown in on the minimap.

use vstd::prelude::*;

verus! {

/// Level of detail of a streamed tile.
#[derive(Clone, Copy, Debug, PartialEq, Eq, Hash, Structural)]
pub enum TileLod {
    Near,
    Mid,
    Far,
}

/// The features of the scene that fall in one tile, by index into each list.
#[derive(Clone, Debug)]
pub struct TileFeatureRefs {
    pub buildings: Vec<usize>,
    pub roads: Vec<usize>,
    pub railways: Vec<usize>,
    pub waters: Vec<usize>,
    pub waterways: Vec<usize>,
    pub landuses: Vec<usize>,
    pub point_features: Vec<usize>,
    pub street_signs: Vec<usize>,
}

impl Default for TileFeatureRefs {
    /// A tile with no features.
    fn default() -> (r: Self)
        ensures
            r.buildings@.len() == 0,
            r.roads@.len() == 0,
            r.railways@.len() == 0,
            r.waters@.len() == 0,
            r.waterways@.len() == 0,
            r.landuses@.len() == 0,
            r.point_features@.len() == 0,
            r.street_signs@.len() == 0,
    {
        TileFeatureRefs {
            buildings: Vec::new(),
            roads: Vec::new(),
            railways: Vec::new(),
            waters: Vec::new(),
            waterways: Vec::new(),
            landuses: Vec::new(),
            point_features: Vec::new(),
            street_signs: Vec::new(),
        }
    }
}

/// A tile of the streaming grid: column `x`, row `z`.
#[derive(Clone, Copy, Debug, PartialEq, Eq, Hash, PartialOrd, Ord, Structural)]
pub struct TileCoord {
    pub x: i32,
    pub z: i32,
}

/// Where a tile is in its life.
#[derive(Clone, Copy, Debug, PartialEq, Eq, Hash, Structural)]
pub enum TileDebugState {
    Queued,
    Generating,
    Uploaded,
    Visible,
    Culled,
    Evicted,
    Failed,
}

/// A tile and its state.
#[derive(Clone, Copy, Debug, PartialEq, Eq, Hash, Structural)]
pub struct TileDebugEntry {
    pub coord: TileCoord,
    pub state: TileDebugState,
}

/// The label of a state.
pub open spec fn state_label(s: TileDebugState) -> Seq<char> {
    match s {
        TileDebugState::Queued => "queued"@,
        TileDebugState::Generating => "generating"@,
        TileDebugState::Uploaded => "uploaded"@,
        TileDebugState::Visible => "visible"@,
        TileDebugState::Culled => "culled"@,
        TileDebugState::Evicted => "evicted"@,
        TileDebugState::Failed => "failed"@,
    }
}

/// A tile whose geometry is on the GPU.
pub open spec fn state_is_loaded(s: TileDebugState) -> bool {
    s == TileDebugState::Uploaded || s == TileDebugState::Visible || s == TileDebugState::Culled
}

impl TileDebugState {
    /// The label shown for the state.
    pub fn label(self) -> (r: &'static str)
        ensures
            r@ == state_label(self),
    {
        match self {
            TileDebugState::Queued => "queued",
            TileDebugState::Generating => "generating",
            TileDebugState::Uploaded => "uploaded",
            TileDebugState::Visible => "visible",
            TileDebugState::Culled => "culled",
            TileDebugState::Evicted => "evicted",
            TileDebugState::Failed => "failed",
        }
    }

    /// Whether the tile's geometry is on the GPU (uploaded, visible or culled).
    pub fn is_loaded(self) -> (r: bool)
        ensures
            r == state_is_loaded(self),
    {
        match self {
            TileDebugState::Uploaded | TileDebugState::Visible | TileDebugState::Culled => true,
            _ => false,
        }
    }
}

/// Every tile from `start` to `end` (both included), row by row from the
/// lowest `z`, each row from the lowest `x`.
pub open spec fn tiles_between_spec(start: TileCoord, end: TileCoord) -> Seq<TileCoord> {
    let w = if end.x >= start.x {
        end.x - start.x + 1
    } else {
        0
    };
    let h = if end.z >= start.z {
        end.z - start.z + 1
    } else {
        0
    };
    Seq::new(
        (w * h) as nat,
        |k: int| TileCoord { x: (start.x + k % w) as i32, z: (start.z + k / w) as i32 },
    )
}

/// The tiles of the rectangle from `start` to `end`, in row order (the grid
/// walk of a bounding box once its corners are known as tiles).
pub fn tiles_between(start: TileCoord, end: TileCoord) -> (r: Vec<TileCoord>)
    requires
        (if end.x >= start.x {
            end.x - start.x + 1
        } else {
            0
        }) * (if end.z >= start.z {
            end.z - start.z + 1
        } else {
            0
        }) <= usize::MAX,
    ensures
        r@ == tiles_between_spec(start, end),
{
    let mut out: Vec<TileCoord> = Vec::new();
    if end.x < start.x || end.z < start.z {
        proof {
            let w = if end.x >= start.x {
                end.x - start.x + 1
            } else {
                0
            };
            let h = if end.z >= start.z {
                end.z - start.z + 1
            } else {
                0
            };
            assert(w * h == 0) by (nonlinear_arith)
                requires
                    w == 0 || h == 0,
            ;
        }
        assert(out@ =~= tiles_between_spec(start, end));
        return out;
    }
    let ghost w: int = end.x - start.x + 1;
    let ghost h: int = end.z - start.z + 1;
    let mut z: i64 = start.z as i64;
    while z <= end.z as i64
        invariant
            w == end.x - start.x + 1,
            h == end.z - start.z + 1,
            w >= 1,
            h >= 1,
            start.z <= z <= end.z + 1,
            out@.len() == (z - start.z) * w,
            forall|k: int|
                0 <= k < out@.len() ==> #[trigger] out@[k] == (TileCoord {
                    x: (start.x + k % w) as i32,
                    z: (start.z + k / w) as i32,
                }),
        decreases end.z + 1 - z,
    {
        let mut x: i64 = start.x as i64;
        let ghost row_base: int = (z - start.z) * w;
        while x <= end.x as i64
            invariant
                w == end.x - start.x + 1,
                h == end.z - start.z + 1,
                w >= 1,
                start.z <= z <= end.z,
                start.x <= x <= end.x + 1,
                row_base == (z - start.z) * w,
                out@.len() == row_base + (x - start.x),
                forall|k: int|
                    0 <= k < out@.len() ==> #[trigger] out@[k] == (TileCoord {
                        x: (start.x + k % w) as i32,
                        z: (start.z + k / w) as i32,
                    }),
            decreases end.x + 1 - x,
        {
            let ghost k: int = out@.len() as int;
            proof {
                let d = (x - start.x) as int;
                let q = (z - start.z) as int;
                assert(k == q * w + d);
                assert(0 <= d < w);
                assert(k % w == d && k / w == q) by (nonlinear_arith)
                    requires
                        k == q * w + d,
                        0 <= d < w,
                        q >= 0,
                ;
            }
            out.push(TileCoord { x: x as i32, z: z as i32 });
            x = x + 1;
        }
        proof {
            assert((z - start.z) * w + w == (z + 1 - start.z) * w) by (nonlinear_arith);
        }
        z = z + 1;
    }
    proof {
        assert(out@.len() == h * w);
        assert(w * h == h * w) by (nonlinear_arith);
    }
    assert(out@ =~= tiles_between_spec(start, end));
    out
}

/// Re-sorts the loaded tiles into visible and culled: a loaded tile becomes
/// visible when `within_radius` says it is inside the streaming radius and
/// culled otherwise; tiles in any other state keep it.
pub fn update_loaded_tile_debug_states(entries: &mut Vec<TileDebugEntry>, within_radius: &Vec<bool>)
    requires
        old(entries).len() == within_radius.len(),
    ensures
        final(entries).len() == old(entries).len(),
        forall|i: int|
            0 <= i < old(entries).len() ==> {
                &&& (#[trigger] final(entries)@[i]).coord == old(entries)@[i].coord
                &&& final(entries)@[i].state == if state_is_loaded(old(entries)@[i].state) {
                    if within_radius@[i] {
                        TileDebugState::Visible
                    } else {
                        TileDebugState::Culled
                    }
                } else {
                    old(entries)@[i].state
                }
            },
{
    let mut i: usize = 0;
    while i < entries.len()
        invariant
            i <= entries.len() == old(entries).len() == within_radius.len(),
            forall|j: int|
                i <= j < entries.len() ==> #[trigger] entries@[j] == old(entries)@[j],
            forall|j: int|
                0 <= j < i ==> {
                    &&& (#[trigger] entries@[j]).coord == old(entries)@[j].coord
                    &&& entries@[j].state == if state_is_loaded(old(entries)@[j].state) {
                        if within_radius@[j] {
                            TileDebugState::Visible
                        } else {
                            TileDebugState::Culled
                        }
                    } else {
                        old(entries)@[j].state
                    }
                },
        decreases entries.len() - i,
    {
        let e = entries[i];
        if e.state.is_loaded() {
            let state = if within_radius[i] {
                TileDebugState::Visible
            } else {
                TileDebugState::Culled
            };
            entries.set(i, TileDebugEntry { coord: e.coord, state });
        }
        i = i + 1;
    }
}

/// The minimap colour of each state, in legend order.
pub open spec fn legend_table() -> Seq<(TileDebugState, (u8, u8, u8))> {
    seq![
        (TileDebugState::Queued, (120u8, 170u8, 255u8)),
        (TileDebugState::Generating, (255u8, 214u8, 92u8)),
        (TileDebugState::Uploaded, (122u8, 220u8, 255u8)),
        (TileDebugState::Visible, (101u8, 240u8, 162u8)),
        (TileDebugState::Culled, (150u8, 150u8, 165u8)),
        (TileDebugState::Evicted, (190u8, 120u8, 255u8)),
        (TileDebugState::Failed, (255u8, 86u8, 86u8)),
    ]
}

/// The legend of the tile overlay: every state with its colour.
pub fn tile_debug_legend_entries() -> (r: Vec<(TileDebugState, (u8, u8, u8))>)
    ensures
        r@ == legend_table(),
{
    let mut r: Vec<(TileDebugState, (u8, u8, u8))> = Vec::new();
    r.push((TileDebugState::Queued, (120, 170, 255)));
    r.push((TileDebugState::Generating, (255, 214, 92)));
    r.push((TileDebugState::Uploaded, (122, 220, 255)));
    r.push((TileDebugState::Visible, (101, 240, 162)));
    r.push((TileDebugState::Culled, (150, 150, 165)));
    r.push((TileDebugState::Evicted, (190, 120, 255)));
    r.push((TileDebugState::Failed, (255, 86, 86)));
    assert(r@ =~= legend_table());
    r
}

/// The colour of the first legend entry for `state`, white when there is
/// none.
pub open spec fn legend_color(table: Seq<(TileDebugState, (u8, u8, u8))>, state: TileDebugState) -> (
    u8,
    u8,
    u8,
)
    decreases table.len(),
{
    if table.len() == 0 {
        (255u8, 255u8, 255u8)
    } else if table[0].0 == state {
        table[0].1
    } else {
        legend_color(table.drop_first(), state)
    }
}

/// The overlay colour of a tile in `state`: its legend colour.
pub fn tile_debug_color(state: TileDebugState) -> (r: (u8, u8, u8))
    ensures
        r == legend_color(legend_table(), state),
{
    let table = tile_debug_legend_entries();
    assert(table@.skip(0) =~= table@);
    let mut i: usize = 0;
    while i < table.len()
        invariant
            i <= table.len(),
            table@ == legend_table(),
            legend_color(legend_table(), state) == legend_color(table@.skip(i as int), state),
        decreases table.len() - i,
    {
        assert(table@.skip(i as int).drop_first() =~= table@.skip(i + 1));
        if table[i].0 == state {
            return table[i].1;
        }
        i = i + 1;
    }
    (255, 255, 255)
}

/// Every state has its own colour in the legend: the overlay never falls
/// back to white, and two different states are never drawn alike.
pub proof fn lemma_legend_covers_every_state(a: TileDebugState, b: TileDebugState)
    ensures
        legend_color(legend_table(), a) != (255u8, 255u8, 255u8),
        a != b ==> legend_color(legend_table(), a) != legend_color(legend_table(), b),
{
    reveal_with_fuel(legend_color, 8);
}


/// The tiles from `start` to `end` are exactly those of the rectangle they
/// span, each once: every tile whose column and row lie between the corners
/// is listed, and nothing else is.
pub proof fn lemma_tiles_between_covers_rectangle(start: TileCoord, end: TileCoord, c: TileCoord)
    ensures
        (start.x <= c.x <= end.x && start.z <= c.z <= end.z) <==> tiles_between_spec(
            start,
            end,
        ).contains(c),
        forall|i: int, j: int|
            0 <= i < j < tiles_between_spec(start, end).len() ==> tiles_between_spec(start, end)[i]
                != tiles_between_spec(start, end)[j],
{
    let t = tiles_between_spec(start, end);
    let w: int = if end.x >= start.x {
        end.x - start.x + 1
    } else {
        0
    };
    let h: int = if end.z >= start.z {
        end.z - start.z + 1
    } else {
        0
    };
    if w > 0 && h > 0 {
        assert(t.len() == w * h);
        if start.x <= c.x <= end.x && start.z <= c.z <= end.z {
            let d = c.x - start.x;
            let q = c.z - start.z;
            let k = q * w + d;
            assert(0 <= k < w * h && k % w == d && k / w == q) by (nonlinear_arith)
                requires
                    0 <= d < w,
                    0 <= q < h,
                    k == q * w + d,
            ;
            assert(t[k] == c);
        }
        assert forall|k: int| 0 <= k < t.len() implies start.x <= #[trigger] t[k].x <= end.x
            && start.z <= t[k].z <= end.z by {
            assert(0 <= k % w < w && 0 <= k / w < h) by (nonlinear_arith)
                requires
                    0 <= k < w * h,
                    w > 0,
                    h > 0,
            ;
        }
        assert forall|i: int, j: int| 0 <= i < j < t.len() implies t[i] != t[j] by {
            assert(0 <= i % w < w && 0 <= j % w < w && 0 <= i / w < h && 0 <= j / w < h)
                by (nonlinear_arith)
                requires
                    w > 0,
                    h > 0,
                    0 <= i < w * h,
                    0 <= j < w * h,
            ;
            assert(i == w * (i / w) + i % w && j == w * (j / w) + j % w) by (nonlinear_arith)
                requires
                    w > 0,
            ;
            assert(t[i].x == start.x + i % w && t[j].x == start.x + j % w);
            assert(t[i].z == start.z + i / w && t[j].z == start.z + j / w);
        }
    } else {
        assert(w * h == 0) by (nonlinear_arith)
            requires
                w == 0 || h == 0,
        ;
        assert(t.len() == 0);
    }
}

} // verus!
