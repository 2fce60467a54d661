//! Batching of scene triangles for drawing: each triangle goes to the render
//! layer of its feature kind, so that the ground, overlays and solids can be
//! drawn in order, and only the triangles of buildings cast shadows.
//!
//! A vertex is known here by the kind of feature it belongs to.

use vstd::prelude::*;

verus! {

/// The kind of feature a vertex belongs to.
#[derive(Clone, Copy, Debug, PartialEq, Eq, Structural)]
pub enum FeatureClass {
    Terrain,
    Building,
    Road,
    RoadLayered,
    RoadPath,
    Water,
    Landuse,
    LanduseOverlay,
    RoadMarking,
    RoadMarkingLayered,
    Railway,
    PointFeature,
    StreetSign,
    /// Any other feature value.
    Other,
}

/// A batch of triangles drawn together.
#[derive(Clone, Copy, Debug, PartialEq, Eq, Structural)]
pub enum RenderLayer {
    Terrain,
    Landuse,
    LanduseOverlay,
    Water,
    RoadPath,
    Road,
    Railway,
    RoadMarking,
    Solids,
}

/// The layer of a feature kind: layered roads and markings share the layer
/// of their base kind, and everything that is not a surface is solid.
pub open spec fn layer_of_class(c: FeatureClass) -> RenderLayer {
    match c {
        FeatureClass::Terrain => RenderLayer::Terrain,
        FeatureClass::Landuse => RenderLayer::Landuse,
        FeatureClass::LanduseOverlay => RenderLayer::LanduseOverlay,
        FeatureClass::Water => RenderLayer::Water,
        FeatureClass::RoadPath => RenderLayer::RoadPath,
        FeatureClass::Road | FeatureClass::RoadLayered => RenderLayer::Road,
        FeatureClass::Railway => RenderLayer::Railway,
        FeatureClass::RoadMarking | FeatureClass::RoadMarkingLayered => RenderLayer::RoadMarking,
        _ => RenderLayer::Solids,
    }
}

/// The kind of a triangle: that of its first vertex that exists, a building
/// when none does.
pub open spec fn triangle_class(classes: Seq<FeatureClass>, indices: Seq<u32>, t: int) -> FeatureClass {
    if indices[3 * t] < classes.len() {
        classes[indices[3 * t] as int]
    } else if indices[3 * t + 1] < classes.len() {
        classes[indices[3 * t + 1] as int]
    } else if indices[3 * t + 2] < classes.len() {
        classes[indices[3 * t + 2] as int]
    } else {
        FeatureClass::Building
    }
}

/// The layer a triangle is drawn in.
pub open spec fn triangle_layer(classes: Seq<FeatureClass>, indices: Seq<u32>, t: int) -> RenderLayer {
    layer_of_class(triangle_class(classes, indices, t))
}

/// The three indices of triangle `t`.
pub open spec fn triangle(indices: Seq<u32>, t: int) -> Seq<u32> {
    seq![indices[3 * t], indices[3 * t + 1], indices[3 * t + 2]]
}

/// The indices of the first `n` triangles that are drawn in `layer`, in
/// order.
pub open spec fn layer_indices(
    classes: Seq<FeatureClass>,
    indices: Seq<u32>,
    layer: RenderLayer,
    n: int,
) -> Seq<u32>
    decreases n,
{
    if n <= 0 {
        Seq::empty()
    } else if triangle_layer(classes, indices, n - 1) == layer {
        layer_indices(classes, indices, layer, n - 1) + triangle(indices, n - 1)
    } else {
        layer_indices(classes, indices, layer, n - 1)
    }
}

/// A triangle casts a shadow when all three of its vertices exist and belong
/// to a building.
pub open spec fn casts_shadow(classes: Seq<FeatureClass>, indices: Seq<u32>, t: int) -> bool {
    &&& indices[3 * t] < classes.len()
    &&& indices[3 * t + 1] < classes.len()
    &&& indices[3 * t + 2] < classes.len()
    &&& classes[indices[3 * t] as int] == FeatureClass::Building
    &&& classes[indices[3 * t + 1] as int] == FeatureClass::Building
    &&& classes[indices[3 * t + 2] as int] == FeatureClass::Building
}

/// The indices of the shadow-casting triangles among the first `n`.
pub open spec fn shadow_indices(classes: Seq<FeatureClass>, indices: Seq<u32>, n: int) -> Seq<u32>
    decreases n,
{
    if n <= 0 {
        Seq::empty()
    } else if casts_shadow(classes, indices, n - 1) {
        shadow_indices(classes, indices, n - 1) + triangle(indices, n - 1)
    } else {
        shadow_indices(classes, indices, n - 1)
    }
}

/// The index lists of all layers.
#[derive(Clone, Debug)]
pub struct RenderLayerIndexData {
    pub terrain: Vec<u32>,
    pub landuse: Vec<u32>,
    pub landuse_overlay: Vec<u32>,
    pub water: Vec<u32>,
    pub road_path: Vec<u32>,
    pub road: Vec<u32>,
    pub railway: Vec<u32>,
    pub road_marking: Vec<u32>,
    pub solids: Vec<u32>,
}

impl RenderLayerIndexData {
    /// The index list of `layer`.
    pub open spec fn layer(&self, layer: RenderLayer) -> Seq<u32> {
        match layer {
            RenderLayer::Terrain => self.terrain@,
            RenderLayer::Landuse => self.landuse@,
            RenderLayer::LanduseOverlay => self.landuse_overlay@,
            RenderLayer::Water => self.water@,
            RenderLayer::RoadPath => self.road_path@,
            RenderLayer::Road => self.road@,
            RenderLayer::Railway => self.railway@,
            RenderLayer::RoadMarking => self.road_marking@,
            RenderLayer::Solids => self.solids@,
        }
    }
}

fn class_layer(c: FeatureClass) -> (r: RenderLayer)
    ensures
        r == layer_of_class(c),
{
    match c {
        FeatureClass::Terrain => RenderLayer::Terrain,
        FeatureClass::Landuse => RenderLayer::Landuse,
        FeatureClass::LanduseOverlay => RenderLayer::LanduseOverlay,
        FeatureClass::Water => RenderLayer::Water,
        FeatureClass::RoadPath => RenderLayer::RoadPath,
        FeatureClass::Road | FeatureClass::RoadLayered => RenderLayer::Road,
        FeatureClass::Railway => RenderLayer::Railway,
        FeatureClass::RoadMarking | FeatureClass::RoadMarkingLayered => RenderLayer::RoadMarking,
        _ => RenderLayer::Solids,
    }
}

fn push3(v: &mut Vec<u32>, a: u32, b: u32, c: u32)
    ensures
        final(v)@ == old(v)@ + seq![a, b, c],
{
    v.push(a);
    v.push(b);
    v.push(c);
    assert(v@ =~= old(v)@ + seq![a, b, c]);
}

/// Sorts the triangles of a triangle list into render layers, keeping their
/// order within each layer. Indices after the last whole triangle are
/// ignored.
pub fn render_layer_index_data(classes: &[FeatureClass], indices: &[u32]) -> (r: RenderLayerIndexData)
    ensures
        forall|l: RenderLayer|
            #[trigger] r.layer(l) == layer_indices(classes@, indices@, l, (indices.len() / 3) as int),
{
    let mut d = RenderLayerIndexData {
        terrain: Vec::new(),
        landuse: Vec::new(),
        landuse_overlay: Vec::new(),
        water: Vec::new(),
        road_path: Vec::new(),
        road: Vec::new(),
        railway: Vec::new(),
        road_marking: Vec::new(),
        solids: Vec::new(),
    };
    let n = indices.len() / 3;
    let mut t: usize = 0;
    while t < n
        invariant
            t <= n == (indices.len() / 3) as int,
            forall|l: RenderLayer|
                #[trigger] d.layer(l) == layer_indices(classes@, indices@, l, t as int),
        decreases n - t,
    {
        let a = indices[3 * t];
        let b = indices[3 * t + 1];
        let c = indices[3 * t + 2];
        let class = if (a as usize) < classes.len() {
            classes[a as usize]
        } else if (b as usize) < classes.len() {
            classes[b as usize]
        } else if (c as usize) < classes.len() {
            classes[c as usize]
        } else {
            FeatureClass::Building
        };
        let layer = class_layer(class);
        assert(layer == triangle_layer(classes@, indices@, t as int));
        assert(triangle(indices@, t as int) == seq![a, b, c]);
        let ghost before = d;
        match layer {
            RenderLayer::Terrain => push3(&mut d.terrain, a, b, c),
            RenderLayer::Landuse => push3(&mut d.landuse, a, b, c),
            RenderLayer::LanduseOverlay => push3(&mut d.landuse_overlay, a, b, c),
            RenderLayer::Water => push3(&mut d.water, a, b, c),
            RenderLayer::RoadPath => push3(&mut d.road_path, a, b, c),
            RenderLayer::Road => push3(&mut d.road, a, b, c),
            RenderLayer::Railway => push3(&mut d.railway, a, b, c),
            RenderLayer::RoadMarking => push3(&mut d.road_marking, a, b, c),
            RenderLayer::Solids => push3(&mut d.solids, a, b, c),
        }
        assert forall|l: RenderLayer|
            #[trigger] d.layer(l) == layer_indices(classes@, indices@, l, t + 1) by {
            if l == layer {
                assert(d.layer(l) == before.layer(l) + seq![a, b, c]);
            } else {
                assert(d.layer(l) == before.layer(l));
            }
        }
        t = t + 1;
    }
    d
}

/// The shadow-casting triangles of a triangle list, in order (receiver
/// surfaces such as terrain, roads and water never cast shadows).
pub fn shadow_casting_indices(classes: &[FeatureClass], indices: &[u32]) -> (r: Vec<u32>)
    ensures
        r@ == shadow_indices(classes@, indices@, (indices.len() / 3) as int),
{
    let mut out: Vec<u32> = Vec::new();
    let n = indices.len() / 3;
    let mut t: usize = 0;
    while t < n
        invariant
            t <= n == (indices.len() / 3) as int,
            out@ == shadow_indices(classes@, indices@, t as int),
        decreases n - t,
    {
        let a = indices[3 * t];
        let b = indices[3 * t + 1];
        let c = indices[3 * t + 2];
        let keep = (a as usize) < classes.len() && (b as usize) < classes.len() && (c as usize)
            < classes.len() && classes[a as usize] == FeatureClass::Building && classes[b as usize]
            == FeatureClass::Building && classes[c as usize] == FeatureClass::Building;
        assert(keep == casts_shadow(classes@, indices@, t as int));
        if keep {
            push3(&mut out, a, b, c);
        }
        t = t + 1;
    }
    out
}

/// The shadow index buffer and how many of its indices to draw: the buffer
/// is never empty (it holds a single zero when nothing casts a shadow), and
/// the draw count is the number of shadow-casting indices.
pub struct ShadowIndexData {
    pub buffer_indices: Vec<u32>,
    pub draw_count: u32,
}

/// The shadow index data of a triangle list.
pub fn shadow_index_data(classes: &[FeatureClass], indices: &[u32]) -> (r: ShadowIndexData)
    ensures
        r.draw_count == shadow_indices(classes@, indices@, (indices.len() / 3) as int).len() as u32,
        shadow_indices(classes@, indices@, (indices.len() / 3) as int).len() == 0 ==> r.buffer_indices@
            == seq![0u32],
        shadow_indices(classes@, indices@, (indices.len() / 3) as int).len() > 0 ==> r.buffer_indices@
            == shadow_indices(classes@, indices@, (indices.len() / 3) as int),
{
    let buffer_indices = shadow_casting_indices(classes, indices);
    let draw_count = buffer_indices.len() as u32;
    if buffer_indices.len() == 0 {
        let mut v: Vec<u32> = Vec::new();
        v.push(0);
        assert(v@ =~= seq![0u32]);
        ShadowIndexData { buffer_indices: v, draw_count }
    } else {
        ShadowIndexData { buffer_indices, draw_count }
    }
}

/// The number of triangles drawn in some layer, over all layers.
pub open spec fn total_layer_len(classes: Seq<FeatureClass>, indices: Seq<u32>, n: int) -> int {
    (layer_indices(classes, indices, RenderLayer::Terrain, n).len() + layer_indices(
        classes,
        indices,
        RenderLayer::Landuse,
        n,
    ).len() + layer_indices(classes, indices, RenderLayer::LanduseOverlay, n).len()
        + layer_indices(classes, indices, RenderLayer::Water, n).len() + layer_indices(
        classes,
        indices,
        RenderLayer::RoadPath,
        n,
    ).len() + layer_indices(classes, indices, RenderLayer::Road, n).len() + layer_indices(
        classes,
        indices,
        RenderLayer::Railway,
        n,
    ).len() + layer_indices(classes, indices, RenderLayer::RoadMarking, n).len()
        + layer_indices(classes, indices, RenderLayer::Solids, n).len()) as int
}

/// A ground surface: terrain, land use and its overlays, water, paths,
/// roads, railways and road markings, layered or not.
pub open spec fn is_ground_surface(c: FeatureClass) -> bool {
    c == FeatureClass::Terrain || c == FeatureClass::Landuse || c == FeatureClass::LanduseOverlay
        || c == FeatureClass::Water || c == FeatureClass::RoadPath || c == FeatureClass::Road || c
        == FeatureClass::RoadLayered || c == FeatureClass::Railway || c == FeatureClass::RoadMarking
        || c == FeatureClass::RoadMarkingLayered
}

/// The solids are everything that is not a ground surface: buildings, point
/// features such as trees and points of interest, street signs and any other
/// feature are drawn with the solids, and no ground surface is. A layered
/// road or marking is drawn with its base kind, and the other surfaces each
/// have a layer of their own.
pub proof fn lemma_solids_are_all_but_ground_surfaces(c: FeatureClass, d: FeatureClass)
    ensures
        layer_of_class(c) == RenderLayer::Solids <==> !is_ground_surface(c),
        layer_of_class(FeatureClass::RoadLayered) == layer_of_class(FeatureClass::Road),
        layer_of_class(FeatureClass::RoadMarkingLayered) == layer_of_class(
            FeatureClass::RoadMarking,
        ),
        is_ground_surface(c) && is_ground_surface(d) && c != d && layer_of_class(c)
            == layer_of_class(d) ==> (c == FeatureClass::Road || c == FeatureClass::RoadLayered) && (
        d == FeatureClass::Road || d == FeatureClass::RoadLayered) || (c == FeatureClass::RoadMarking
            || c == FeatureClass::RoadMarkingLayered) && (d == FeatureClass::RoadMarking || d
            == FeatureClass::RoadMarkingLayered),
{
}

/// Every triangle of a feature that is not a ground surface is drawn with
/// the solids, and every triangle of a ground surface elsewhere.
pub proof fn lemma_triangles_of_solid_features_are_solids(
    classes: Seq<FeatureClass>,
    indices: Seq<u32>,
    t: int,
)
    ensures
        (triangle_layer(classes, indices, t) == RenderLayer::Solids) == !is_ground_surface(
            triangle_class(classes, indices, t),
        ),
{
    lemma_solids_are_all_but_ground_surfaces(
        triangle_class(classes, indices, t),
        triangle_class(classes, indices, t),
    );
}

/// The layers partition the triangles: every whole triangle is drawn in
/// exactly one layer, so the layers hold three indices per triangle in all.
pub proof fn lemma_layers_partition_triangles(
    classes: Seq<FeatureClass>,
    indices: Seq<u32>,
    n: int,
)
    requires
        0 <= n,
    ensures
        total_layer_len(classes, indices, n) == 3 * n,
    decreases n,
{
    if n > 0 {
        lemma_layers_partition_triangles(classes, indices, n - 1);
    }
}

/// Every shadow-casting triangle is drawn with the solids: shadows come only
/// from geometry that is itself drawn as a solid.
pub proof fn lemma_shadow_casters_are_solids(classes: Seq<FeatureClass>, indices: Seq<u32>, t: int)
    requires
        casts_shadow(classes, indices, t),
    ensures
        triangle_layer(classes, indices, t) == RenderLayer::Solids,
{
}

} // verus!
