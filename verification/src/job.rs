//! The device-independent make-up of a laser job: which layers it burns, in
//! which order, with which shapes, and whether a layer is cut along its
//! outlines or filled. Only enabled, unlocked layers burn; `visible` only
//! steers the canvas. The outlines in millimetres are the caller's (keyed by `Shape::geo`).

use vstd::prelude::*;

use crate::model::{Layer, Shape};

verus! {

/// A layer block of the job.
#[derive(Debug, Clone)]
pub struct JobLayer {
    /// Index of the layer in the drawing.
    pub layer_id: usize,
    /// Layer colour (some drivers encode it).
    pub color: [u8; 3],
    /// Key of the layer's numeric laser parameters.
    pub laser_params: u64,
    pub passes: u32,
    /// Fill, raster and image layers fill areas; cut layers follow outlines.
    pub filled: bool,
    /// Indices of the layer's shapes, in drawing order.
    pub shapes: Vec<usize>,
}

/// The abstract value of a job layer.
pub struct JobLayerView {
    pub layer_id: usize,
    pub color: [u8; 3],
    pub laser_params: u64,
    pub passes: u32,
    pub filled: bool,
    pub shapes: Seq<usize>,
}

impl View for JobLayer {
    type V = JobLayerView;

    open spec fn view(&self) -> JobLayerView {
        JobLayerView {
            layer_id: self.layer_id,
            color: self.color,
            laser_params: self.laser_params,
            passes: self.passes,
            filled: self.filled,
            shapes: self.shapes@,
        }
    }
}

/// The job: its layer blocks in plan order.
#[derive(Debug, Clone)]
pub struct JobPlan {
    pub layers: Vec<JobLayer>,
}

/// The indices of the shapes on layer `li`, in drawing order.
pub open spec fn shapes_on(shapes: Seq<Shape>, li: int) -> Seq<usize>
    decreases shapes.len(),
{
    if shapes.len() == 0 {
        Seq::empty()
    } else {
        let rest = shapes_on(shapes.drop_last(), li);
        if shapes.last().layer_id == li {
            rest.push((shapes.len() - 1) as usize)
        } else {
            rest
        }
    }
}

/// The block of layer `li` in the job.
pub open spec fn job_layer(l: Layer, li: int, on: Seq<usize>) -> JobLayerView {
    JobLayerView {
        layer_id: li as usize,
        color: l.color,
        laser_params: l.laser_params,
        passes: l.passes,
        filled: l.mode.spec_is_filled(),
        shapes: on,
    }
}

/// A layer burns: it is enabled and not locked (visible or not).
pub open spec fn burns(l: Layer) -> bool {
    l.enabled && !l.locked
}

/// The blocks of a job: every burning layer that holds shapes, in layer
/// order.
pub open spec fn planned_layers(layers: Seq<Layer>, shapes: Seq<Shape>) -> Seq<JobLayerView>
    decreases layers.len(),
{
    if layers.len() == 0 {
        Seq::empty()
    } else {
        let prev = planned_layers(layers.drop_last(), shapes);
        let li = layers.len() - 1;
        let on = shapes_on(shapes, li);
        if burns(layers.last()) && on.len() > 0 {
            prev.push(job_layer(layers.last(), li, on))
        } else {
            prev
        }
    }
}

impl JobPlan {
    pub open spec fn blocks(self) -> Seq<JobLayerView> {
        self.layers@.map_values(|l: JobLayer| l@)
    }

    /// Builds the job from the shapes and layers: every enabled, unlocked
    /// layer (visible or not) that holds shapes becomes a block, in layer
    /// order, with its shapes in drawing order; disabled, locked and empty
    /// layers are left out.
    pub fn from_shapes(shapes: &Vec<Shape>, layers: &Vec<Layer>) -> (plan: JobPlan)
        ensures
            plan.blocks() == planned_layers(layers@, shapes@),
    {
        let mut out: Vec<JobLayer> = Vec::new();
        let mut li: usize = 0;
        while li < layers.len()
            invariant
                li <= layers.len(),
                out@.map_values(|l: JobLayer| l@) == planned_layers(layers@.take(li as int), shapes@),
            decreases layers.len() - li,
        {
            proof {
                assert(layers@.take(li + 1).drop_last() =~= layers@.take(li as int));
            }
            let layer = &layers[li];
            if layer.enabled && !layer.locked {
                let on = shape_indices(shapes, li);
                if on.len() > 0 {
                    let block = JobLayer {
                        layer_id: li,
                        color: layer.color,
                        laser_params: layer.laser_params,
                        passes: layer.passes,
                        filled: layer.mode.is_filled(),
                        shapes: on,
                    };
                    let ghost before = out@;
                    out.push(block);
                    proof {
                        assert(out@.map_values(|l: JobLayer| l@) =~= before.map_values(
                            |l: JobLayer| l@,
                        ).push(block@));
                    }
                }
            }
            li = li + 1;
        }
        proof {
            assert(layers@.take(li as int) =~= layers@);
        }
        JobPlan { layers: out }
    }

    /// Whether the job has any work.
    pub fn is_empty(&self) -> (r: bool)
        ensures
            r == (self.blocks().len() == 0),
    {
        self.layers.len() == 0
    }
}

/// A job block takes exactly the shapes of its layer: all of them, each once,
/// in drawing order.
pub proof fn job_layer_holds_its_shapes(shapes: Seq<Shape>, li: int)
    requires
        shapes.len() <= usize::MAX,
    ensures
        forall|a: int, b: int|
            0 <= a < b < shapes_on(shapes, li).len() ==> #[trigger] shapes_on(shapes, li)[a]
                < #[trigger] shapes_on(shapes, li)[b],
        forall|a: int|
            0 <= a < shapes_on(shapes, li).len() ==> (#[trigger] shapes_on(shapes, li)[a] as int)
                < shapes.len() && shapes[shapes_on(shapes, li)[a] as int].layer_id == li,
        forall|j: int|
            0 <= j < shapes.len() && #[trigger] shapes[j].layer_id == li ==> shapes_on(
                shapes,
                li,
            ).contains(j as usize),
    decreases shapes.len(),
{
    if shapes.len() > 0 {
        let p = shapes.drop_last();
        job_layer_holds_its_shapes(p, li);
        let prev = shapes_on(p, li);
        let on = shapes_on(shapes, li);
        let last = shapes.len() - 1;
        assert(shapes.last() == shapes[last]);
        if shapes[last].layer_id == li {
            assert(on == prev.push(last as usize));
        } else {
            assert(on == prev);
        }
        assert forall|a: int| 0 <= a < on.len() implies (#[trigger] on[a] as int) < shapes.len()
            && shapes[on[a] as int].layer_id == li by {
            if a < prev.len() {
                assert(on[a] == prev[a]);
                assert(shapes[on[a] as int] == p[on[a] as int]);
            }
        }
        assert forall|a: int, b: int| 0 <= a < b < on.len() implies #[trigger] on[a]
            < #[trigger] on[b] by {
            if b < prev.len() {
                assert(on[a] == prev[a] && on[b] == prev[b]);
            } else {
                assert(on[a] == prev[a]);
                assert((prev[a] as int) < p.len());
            }
        }
        assert forall|j: int| 0 <= j < shapes.len() && #[trigger] shapes[j].layer_id == li implies on.contains(
            j as usize,
        ) by {
            if j < p.len() {
                assert(p[j] == shapes[j]);
                let k = choose|k: int| 0 <= k < prev.len() && prev[k] == j as usize;
                assert(on[k] == prev[k]);
            } else {
                assert(on[on.len() - 1] == j as usize);
            }
        }
    }
}

/// The job burns every enabled, unlocked layer that holds shapes, visible or
/// not, and no other: one block each, in layer order, carrying the layer's colour,
/// parameters and passes, its shapes, and whether it fills.
pub proof fn job_takes_burning_layers_in_order(layers: Seq<Layer>, shapes: Seq<Shape>)
    requires
        layers.len() <= usize::MAX,
    ensures
        forall|a: int, b: int|
            0 <= a < b < planned_layers(layers, shapes).len() ==> (#[trigger] planned_layers(
                layers,
                shapes,
            )[a]).layer_id < (#[trigger] planned_layers(layers, shapes)[b]).layer_id,
        forall|k: int|
            0 <= k < planned_layers(layers, shapes).len() ==> {
                let li = (#[trigger] planned_layers(layers, shapes)[k]).layer_id as int;
                &&& li < layers.len()
                &&& layers[li].enabled
                &&& !layers[li].locked
                &&& shapes_on(shapes, li).len() > 0
                &&& planned_layers(layers, shapes)[k].passes == layers[li].passes
                &&& planned_layers(layers, shapes)[k].color == layers[li].color
                &&& planned_layers(layers, shapes)[k].laser_params == layers[li].laser_params
                &&& planned_layers(layers, shapes)[k].filled == !(layers[li].mode is Cut)
                &&& planned_layers(layers, shapes)[k].shapes == shapes_on(shapes, li)
            },
        forall|li: int|
            0 <= li < layers.len() && (#[trigger] layers[li]).enabled && !layers[li].locked
                && shapes_on(shapes, li).len() > 0 ==> exists|k: int|
                0 <= k < planned_layers(layers, shapes).len() && (#[trigger] planned_layers(
                    layers,
                    shapes,
                )[k]).layer_id == li,
    decreases layers.len(),
{
    if layers.len() > 0 {
        let p = layers.drop_last();
        job_takes_burning_layers_in_order(p, shapes);
        let prev = planned_layers(p, shapes);
        let cur = planned_layers(layers, shapes);
        let last = layers.len() - 1;
        assert(layers.last() == layers[last]);
        if burns(layers[last]) && shapes_on(shapes, last).len() > 0 {
            assert(cur == prev.push(job_layer(layers[last], last, shapes_on(shapes, last))));
        } else {
            assert(cur == prev);
        }
        assert forall|k: int| 0 <= k < prev.len() implies #[trigger] cur[k] == prev[k] by {}
        assert forall|k: int| 0 <= k < cur.len() implies {
            let li = (#[trigger] cur[k]).layer_id as int;
            &&& li < layers.len()
            &&& layers[li].enabled
            &&& !layers[li].locked
            &&& shapes_on(shapes, li).len() > 0
            &&& cur[k].passes == layers[li].passes
            &&& cur[k].color == layers[li].color
            &&& cur[k].laser_params == layers[li].laser_params
            &&& cur[k].filled == !(layers[li].mode is Cut)
            &&& cur[k].shapes == shapes_on(shapes, li)
        } by {
            if k < prev.len() {
                let li = prev[k].layer_id as int;
                assert(p[li] == layers[li]);
            }
        }
        assert forall|a: int, b: int| 0 <= a < b < cur.len() implies (#[trigger] cur[a]).layer_id
            < (#[trigger] cur[b]).layer_id by {
            if b < prev.len() {
                assert(cur[a] == prev[a] && cur[b] == prev[b]);
            } else {
                assert(cur[a] == prev[a]);
            }
        }
        assert forall|li: int|
            0 <= li < layers.len() && (#[trigger] layers[li]).enabled && !layers[li].locked
                && shapes_on(shapes, li).len() > 0 implies exists|k: int| 0 <= k < cur.len() && (#[trigger] cur[k]).layer_id == li by {
            if li < last {
                assert(p[li] == layers[li]);
                let k = choose|k: int| 0 <= k < prev.len() && (#[trigger] prev[k]).layer_id == li;
                assert(cur[k] == prev[k]);
            } else {
                assert(cur[cur.len() - 1].layer_id == li);
            }
        }
    }
}

/// The indices of the shapes on layer `li`, in drawing order.
fn shape_indices(shapes: &Vec<Shape>, li: usize) -> (on: Vec<usize>)
    ensures
        on@ == shapes_on(shapes@, li as int),
{
    let mut on: Vec<usize> = Vec::new();
    let mut j: usize = 0;
    while j < shapes.len()
        invariant
            j <= shapes.len(),
            on@ == shapes_on(shapes@.take(j as int), li as int),
        decreases shapes.len() - j,
    {
        proof {
            assert(shapes@.take(j + 1).drop_last() =~= shapes@.take(j as int));
        }
        if shapes[j].layer_id == li {
            on.push(j);
        }
        j = j + 1;
    }
    proof {
        assert(shapes@.take(j as int) =~= shapes@);
    }
    on
}

} // verus!
