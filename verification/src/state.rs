//! Editor state: layers, shapes, selection, undo/redo — and the automatic
//! colour = layer model.
//!
//! The user never creates a layer by hand. Clicking a colour lets the system
//! manage layers (`activate_color`) and empty layers are cleaned away
//! (`remove_empty_layers`).

use vstd::prelude::*;

use crate::session::LayerToggle;
use crate::model::{
    color_eq, fresh_layer, image_layer_name, layer_name, new_shape, numbered_name, same_color, swatch,
    Layer, LayerMode, LayerView, Shape, SWATCH_COLORS,
};

verus! {

/// The abstract value of the undoable part of the editor state.
pub struct SnapshotView {
    pub layers: Seq<LayerView>,
    pub active_layer: usize,
    pub shapes: Seq<Shape>,
    pub selected: Seq<usize>,
    pub pending_color: Option<[u8; 3]>,
}

/// The abstract value of the whole editor state.
pub struct AppStateView {
    pub current: SnapshotView,
    pub dirty: bool,
    pub undo: Seq<SnapshotView>,
    pub redo: Seq<SnapshotView>,
}

pub open spec fn layer_views(v: Seq<Layer>) -> Seq<LayerView> {
    v.map_values(|l: Layer| l@)
}

impl SnapshotView {
    /// Every shape points to an existing layer.
    pub open spec fn wf(self) -> bool {
        forall|i: int| 0 <= i < self.shapes.len() ==> #[trigger] self.shapes[i].layer_id
            < self.layers.len()
    }
}

impl AppStateView {
    /// State after recording the current state as an undo point.
    pub open spec fn pushed(self) -> AppStateView {
        AppStateView {
            current: self.current,
            dirty: true,
            undo: self.undo.push(self.current),
            redo: Seq::empty(),
        }
    }

    /// State after `undo`.
    pub open spec fn undone(self) -> AppStateView {
        if self.undo.len() == 0 {
            self
        } else {
            AppStateView {
                current: self.undo.last(),
                dirty: true,
                undo: self.undo.drop_last(),
                redo: self.redo.push(self.current),
            }
        }
    }

    /// State after `redo`.
    pub open spec fn redone(self) -> AppStateView {
        if self.redo.len() == 0 {
            self
        } else {
            AppStateView {
                current: self.redo.last(),
                dirty: true,
                undo: self.undo.push(self.current),
                redo: self.redo.drop_last(),
            }
        }
    }

    /// The same history with another current state.
    pub open spec fn with_current(self, c: SnapshotView) -> AppStateView {
        AppStateView { current: c, ..self }
    }

    /// The same state marked as changed.
    pub open spec fn touched(self) -> AppStateView {
        AppStateView { dirty: true, ..self }
    }
}

/// The layer with one flag switched.
pub open spec fn toggled(l: LayerView, toggle: LayerToggle) -> LayerView {
    match toggle {
        LayerToggle::Visible => LayerView { visible: !l.visible, ..l },
        LayerToggle::Enabled => LayerView { enabled: !l.enabled, ..l },
        LayerToggle::Locked => LayerView { locked: !l.locked, ..l },
        LayerToggle::AirAssist => LayerView { air_assist: !l.air_assist, ..l },
    }
}

/// Switching a flag of a layer flips exactly that flag: the other three
/// flags and every other field of the layer stay as they were.
pub proof fn toggle_flips_only_its_flag(l: LayerView, t: LayerToggle)
    ensures
        toggled(l, t).visible == (if t is Visible { !l.visible } else { l.visible }),
        toggled(l, t).enabled == (if t is Enabled { !l.enabled } else { l.enabled }),
        toggled(l, t).locked == (if t is Locked { !l.locked } else { l.locked }),
        toggled(l, t).air_assist == (if t is AirAssist { !l.air_assist } else { l.air_assist }),
        toggled(l, t).name == l.name,
        toggled(l, t).color == l.color,
        toggled(l, t).active == l.active,
        toggled(l, t).mode == l.mode,
        toggled(l, t).passes == l.passes,
        toggled(l, t).bidirectional == l.bidirectional,
        toggled(l, t).laser_params == l.laser_params,
{
}

/// An undo snapshot of the relevant state.
struct Snapshot {
    layers: Vec<Layer>,
    active_layer: usize,
    shapes: Vec<Shape>,
    selected: Vec<usize>,
    pending_color: Option<[u8; 3]>,
}

impl View for Snapshot {
    type V = SnapshotView;

    closed spec fn view(&self) -> SnapshotView {
        SnapshotView {
            layers: layer_views(self.layers@),
            active_layer: self.active_layer,
            shapes: self.shapes@,
            selected: self.selected@,
            pending_color: self.pending_color,
        }
    }
}

spec fn snapshot_views(v: Seq<Snapshot>) -> Seq<SnapshotView> {
    v.map_values(|s: Snapshot| s@)
}

/// The whole editor state. UI-free.
pub struct AppState {
    pub layers: Vec<Layer>,
    pub active_layer: usize,
    pub shapes: Vec<Shape>,
    /// Indices of the selected shapes.
    pub selected: Vec<usize>,
    /// Next drawing colour — its layer only appears with the next shape.
    pub pending_color: Option<[u8; 3]>,
    pub dirty: bool,
    undo_stack: Vec<Snapshot>,
    redo_stack: Vec<Snapshot>,
}

impl View for AppState {
    type V = AppStateView;

    closed spec fn view(&self) -> AppStateView {
        AppStateView {
            current: self.current(),
            dirty: self.dirty,
            undo: snapshot_views(self.undo_stack@),
            redo: snapshot_views(self.redo_stack@),
        }
    }
}

pub fn copy_layers(v: &Vec<Layer>) -> (r: Vec<Layer>)
    ensures
        layer_views(r@) == layer_views(v@),
{
    let mut r: Vec<Layer> = Vec::new();
    let mut i: usize = 0;
    while i < v.len()
        invariant
            i <= v.len(),
            layer_views(r@) =~= layer_views(v@).subrange(0, i as int),
        decreases v.len() - i,
    {
        let ghost before = r@;
        let l = v[i].duplicate();
        r.push(l);
        assert(layer_views(r@) =~= layer_views(before).push(v@[i as int]@));
        i = i + 1;
    }
    assert(layer_views(v@).subrange(0, v.len() as int) =~= layer_views(v@));
    r
}

fn copy_snapshots(v: &Vec<Snapshot>) -> (r: Vec<Snapshot>)
    ensures
        snapshot_views(r@) == snapshot_views(v@),
{
    let mut r: Vec<Snapshot> = Vec::new();
    let mut i: usize = 0;
    while i < v.len()
        invariant
            i <= v.len(),
            snapshot_views(r@) =~= snapshot_views(v@).subrange(0, i as int),
        decreases v.len() - i,
    {
        let ghost before = r@;
        let s = &v[i];
        let c = Snapshot {
            layers: copy_layers(&s.layers),
            active_layer: s.active_layer,
            shapes: copy_vec(&s.shapes),
            selected: copy_vec(&s.selected),
            pending_color: s.pending_color,
        };
        r.push(c);
        assert(snapshot_views(r@) =~= snapshot_views(before).push(v@[i as int]@));
        i = i + 1;
    }
    assert(snapshot_views(v@).subrange(0, v.len() as int) =~= snapshot_views(v@));
    r
}

pub fn copy_vec<T: Copy>(v: &Vec<T>) -> (r: Vec<T>)
    ensures
        r@ == v@,
{
    let mut r: Vec<T> = Vec::new();
    let mut i: usize = 0;
    while i < v.len()
        invariant
            i <= v.len(),
            r@ =~= v@.subrange(0, i as int),
        decreases v.len() - i,
    {
        r.push(v[i]);
        i = i + 1;
    }
    assert(v@.subrange(0, v.len() as int) =~= v@);
    r
}

/// The editor state of a freshly loaded project: its layers and shapes, the
/// last layer active, nothing selected, no pending colour, empty history,
/// not dirty.
pub open spec fn loaded_state(layers: Seq<Layer>, shapes: Seq<Shape>) -> AppStateView {
    AppStateView {
        current: SnapshotView {
            layers: layer_views(layers),
            active_layer: if layers.len() > 0 {
                (layers.len() - 1) as usize
            } else {
                0
            },
            shapes,
            selected: Seq::empty(),
            pending_color: None,
        },
        dirty: false,
        undo: Seq::empty(),
        redo: Seq::empty(),
    }
}

impl AppState {
    /// The undoable part of the state as an abstract value.
    pub closed spec fn current(&self) -> SnapshotView {
        SnapshotView {
            layers: layer_views(self.layers@),
            active_layer: self.active_layer,
            shapes: self.shapes@,
            selected: self.selected@,
            pending_color: self.pending_color,
        }
    }

    /// An empty editor: no layers, no shapes, empty history.
    pub fn new() -> (s: AppState)
        ensures
            s@.current.layers.len() == 0,
            s@.current.shapes.len() == 0,
            s@.current.selected.len() == 0,
            s@.current.active_layer == 0,
            s@.current.pending_color is None,
            !s@.dirty,
            s@.undo.len() == 0,
            s@.redo.len() == 0,
    {
        AppState {
            layers: Vec::new(),
            active_layer: 0,
            shapes: Vec::new(),
            selected: Vec::new(),
            pending_color: None,
            dirty: false,
            undo_stack: Vec::new(),
            redo_stack: Vec::new(),
        }
    }

    /// A fresh editor state for a loaded project: its layers and shapes, the
    /// last layer active, nothing selected, empty history, not dirty.
    pub fn from_project(layers: Vec<Layer>, shapes: Vec<Shape>) -> (s: AppState)
        ensures
            s@ == loaded_state(layers@, shapes@),
    {
        let active_layer = if layers.len() > 0 {
            layers.len() - 1
        } else {
            0
        };
        let s = AppState {
            layers,
            active_layer,
            shapes,
            selected: Vec::new(),
            pending_color: None,
            dirty: false,
            undo_stack: Vec::new(),
            redo_stack: Vec::new(),
        };
        proof {
            assert(snapshot_views(s.undo_stack@) =~= Seq::<SnapshotView>::empty());
            assert(snapshot_views(s.redo_stack@) =~= Seq::<SnapshotView>::empty());
            assert(s.selected@ =~= Seq::<usize>::empty());
        }
        s
    }

    fn snapshot(&self) -> (s: Snapshot)
        ensures
            s@ == self@.current,
    {
        let s = Snapshot {
            layers: copy_layers(&self.layers),
            active_layer: self.active_layer,
            shapes: copy_vec(&self.shapes),
            selected: copy_vec(&self.selected),
            pending_color: self.pending_color,
        };
        s
    }

    /// Copies of the current layers and shapes.
    pub fn drawing(&self) -> (r: (Vec<Layer>, Vec<Shape>))
        ensures
            layer_views(r.0@) == self@.current.layers,
            r.1@ == self@.current.shapes,
    {
        (copy_layers(&self.layers), copy_vec(&self.shapes))
    }

    /// Number of layers.
    pub fn layer_count(&self) -> (r: usize)
        ensures
            r == self@.current.layers.len(),
    {
        self.layers.len()
    }

    /// Number of selected shapes.
    pub fn selected_count(&self) -> (r: usize)
        ensures
            r == self@.current.selected.len(),
    {
        self.selected.len()
    }

    /// The indices of the selected shapes.
    pub fn selection(&self) -> (r: &Vec<usize>)
        ensures
            r@ == self@.current.selected,
    {
        &self.selected
    }

    /// Replaces the selection (no undo point).
    pub fn set_selected(&mut self, selected: Vec<usize>)
        ensures
            final(self)@ == old(self)@.with_current(
                SnapshotView { selected: selected@, ..old(self)@.current },
            ),
    {
        self.selected = selected;
    }

    /// Deselects everything (no undo point).
    pub fn clear_selection(&mut self)
        ensures
            final(self)@ == old(self)@.with_current(
                SnapshotView { selected: Seq::empty(), ..old(self)@.current },
            ),
    {
        self.selected.clear();
    }

    /// Switches one flag of layer `index` in one undo step.
    pub fn toggle_layer(&mut self, index: usize, toggle: LayerToggle)
        requires
            index < old(self)@.current.layers.len(),
        ensures
            final(self)@ == old(self)@.pushed().with_current(
                SnapshotView {
                    layers: old(self)@.current.layers.update(
                        index as int,
                        toggled(old(self)@.current.layers[index as int], toggle),
                    ),
                    ..old(self)@.current
                },
            ),
    {
        self.push_undo();
        let old_layer = self.layers.remove(index);
        let mut l = old_layer;
        match toggle {
            LayerToggle::Visible => l.visible = !l.visible,
            LayerToggle::Enabled => l.enabled = !l.enabled,
            LayerToggle::Locked => l.locked = !l.locked,
            LayerToggle::AirAssist => l.air_assist = !l.air_assist,
        }
        self.layers.insert(index, l);
        self.dirty = true;
        proof {
            assert(layer_views(self.layers@) =~= old(self)@.current.layers.update(
                index as int,
                toggled(old(self)@.current.layers[index as int], toggle),
            ));
        }
    }

    /// Puts `layer` in place of layer `index` in one undo step.
    pub fn replace_layer(&mut self, index: usize, layer: Layer)
        requires
            index < old(self)@.current.layers.len(),
        ensures
            final(self)@ == old(self)@.pushed().with_current(
                SnapshotView {
                    layers: old(self)@.current.layers.update(index as int, layer@),
                    ..old(self)@.current
                },
            ),
    {
        self.push_undo();
        let ghost l = layer@;
        self.layers.set(index, layer);
        self.dirty = true;
        proof {
            assert(layer_views(self.layers@) =~= old(self)@.current.layers.update(index as int, l));
        }
    }

    /// Layer `index`.
    pub fn layer(&self, index: usize) -> (r: &Layer)
        requires
            index < self@.current.layers.len(),
        ensures
            r@ == self@.current.layers[index as int],
    {
        &self.layers[index]
    }

    /// A copy of the whole state, history included.
    pub fn duplicate(&self) -> (c: AppState)
        ensures
            c@ == self@,
    {
        AppState {
            layers: copy_layers(&self.layers),
            active_layer: self.active_layer,
            shapes: copy_vec(&self.shapes),
            selected: copy_vec(&self.selected),
            pending_color: self.pending_color,
            dirty: self.dirty,
            undo_stack: copy_snapshots(&self.undo_stack),
            redo_stack: copy_snapshots(&self.redo_stack),
        }
    }

    fn restore(&mut self, s: Snapshot)
        ensures
            final(self)@ == old(self)@.with_current(s@),
    {
        self.layers = s.layers;
        self.active_layer = s.active_layer;
        self.shapes = s.shapes;
        self.selected = s.selected;
        self.pending_color = s.pending_color;
    }

    /// Call before every mutating action: records the current state.
    pub fn push_undo(&mut self)
        ensures
            final(self)@ == old(self)@.pushed(),
    {
        let snap = self.snapshot();
        self.undo_stack.push(snap);
        self.redo_stack.clear();
        self.dirty = true;
        proof {
            assert(snapshot_views(self.undo_stack@) =~= old(self)@.undo.push(old(self)@.current));
            assert(snapshot_views(self.redo_stack@) =~= Seq::<SnapshotView>::empty());
        }
    }

    /// After successful saving the state counts as saved.
    pub fn mark_saved(&mut self)
        ensures
            final(self)@ == (AppStateView { dirty: false, ..old(self)@ }),
    {
        self.dirty = false;
    }

    pub fn can_undo(&self) -> (r: bool)
        ensures
            r == (self@.undo.len() > 0),
    {
        self.undo_stack.len() > 0
    }

    pub fn can_redo(&self) -> (r: bool)
        ensures
            r == (self@.redo.len() > 0),
    {
        self.redo_stack.len() > 0
    }

    /// Steps back to the last undo point; `false` when there is none.
    pub fn undo(&mut self) -> (r: bool)
        ensures
            r == (old(self)@.undo.len() > 0),
            final(self)@ == old(self)@.undone(),
    {
        match self.undo_stack.pop() {
            Some(prev) => {
                let cur = self.snapshot();
                self.redo_stack.push(cur);
                self.restore(prev);
                self.dirty = true;
                proof {
                    assert(snapshot_views(self.undo_stack@) =~= old(self)@.undo.drop_last());
                    assert(snapshot_views(self.redo_stack@) =~= old(self)@.redo.push(
                        old(self)@.current,
                    ));
                }
                true
            },
            None => false,
        }
    }

    /// Re-applies the last undone step; `false` when there is none.
    pub fn redo(&mut self) -> (r: bool)
        ensures
            r == (old(self)@.redo.len() > 0),
            final(self)@ == old(self)@.redone(),
    {
        match self.redo_stack.pop() {
            Some(next) => {
                let cur = self.snapshot();
                self.undo_stack.push(cur);
                self.restore(next);
                self.dirty = true;
                proof {
                    assert(snapshot_views(self.redo_stack@) =~= old(self)@.redo.drop_last());
                    assert(snapshot_views(self.undo_stack@) =~= old(self)@.undo.push(
                        old(self)@.current,
                    ));
                }
                true
            },
            None => false,
        }
    }
}

/// Undo followed by redo gives back the state before the undo (marked as
/// changed).
pub proof fn undo_then_redo_restores(v: AppStateView)
    requires
        v.undo.len() > 0,
    ensures
        v.undone().redone() == v.touched(),
{
    assert(v.undone().redone().undo =~= v.undo);
    assert(v.undone().redone().redo =~= v.redo);
}

/// Redo followed by undo gives back the state before the redo (marked as
/// changed).
pub proof fn redo_then_undo_restores(v: AppStateView)
    requires
        v.redo.len() > 0,
    ensures
        v.redone().undone() == v.touched(),
{
    assert(v.redone().undone().undo =~= v.undo);
    assert(v.redone().undone().redo =~= v.redo);
}

/// An edit recorded with an undo point is taken back by one undo: the current
/// state is the one before the edit, and the edit can be redone.
pub proof fn undo_reverts_recorded_edit(v: AppStateView, edited: SnapshotView)
    ensures
        v.pushed().with_current(edited).undone().current == v.current,
        v.pushed().with_current(edited).undone().undo == v.undo,
        v.pushed().with_current(edited).undone().redone().current == edited,
{
    assert(v.pushed().with_current(edited).undone().undo =~= v.undo);
}

} // verus!

verus! {

// ---- colour = layer -----------------------------------------------------

/// `i` is the first layer with colour `c`.
pub open spec fn is_first_color(layers: Seq<LayerView>, c: [u8; 3], i: int) -> bool {
    &&& 0 <= i < layers.len()
    &&& same_color(layers[i].color, c)
    &&& forall|k: int| 0 <= k < i ==> !same_color(#[trigger] layers[k].color, c)
}

/// Position of the first layer with colour `c`, if any.
pub open spec fn color_position(layers: Seq<LayerView>, c: [u8; 3]) -> Option<int> {
    if exists|i: int| is_first_color(layers, c, i) {
        Some(choose|i: int| is_first_color(layers, c, i))
    } else {
        None
    }
}

pub proof fn lemma_first_color_unique(layers: Seq<LayerView>, c: [u8; 3], i: int, j: int)
    requires
        is_first_color(layers, c, i),
        is_first_color(layers, c, j),
    ensures
        i == j,
{
    if i < j {
        assert(!same_color(layers[i].color, c));
    } else if j < i {
        assert(!same_color(layers[j].color, c));
    }
}

/// Index of the layer that holds colour `c` after `with_color_layer`.
pub open spec fn color_slot(s: SnapshotView, c: [u8; 3]) -> usize {
    match color_position(s.layers, c) {
        Some(i) => i as usize,
        None => s.layers.len() as usize,
    }
}

/// The state with a layer of colour `c` (appended when missing).
pub open spec fn with_color_layer(s: SnapshotView, c: [u8; 3]) -> SnapshotView {
    match color_position(s.layers, c) {
        Some(i) => s,
        None => SnapshotView {
            layers: s.layers.push(fresh_layer(layer_name(s.layers.len()), c)),
            ..s
        },
    }
}

/// The shapes with every selected shape moved to layer `lid`.
pub open spec fn assign_selected(shapes: Seq<Shape>, selected: Seq<usize>, lid: usize) -> Seq<Shape> {
    Seq::new(
        shapes.len(),
        |i: int|
            if selected.contains(i as usize) {
                Shape { layer_id: lid, ..shapes[i] }
            } else {
                shapes[i]
            },
    )
}

// ---- removing empty layers -------------------------------------------------

/// Some shape lies on layer `j`.
pub open spec fn layer_used(shapes: Seq<Shape>, j: int) -> bool {
    exists|i: int| 0 <= i < shapes.len() && #[trigger] shapes[i].layer_id == j
}

/// Number of used layers among the layers `0..n`.
pub open spec fn used_below(shapes: Seq<Shape>, n: nat) -> nat
    decreases n,
{
    if n == 0 {
        0
    } else {
        used_below(shapes, (n - 1) as nat) + if layer_used(shapes, n - 1) {
            1nat
        } else {
            0nat
        }
    }
}

/// The used layers among `0..n`, in order.
pub open spec fn kept_layers(layers: Seq<LayerView>, shapes: Seq<Shape>, n: nat) -> Seq<LayerView>
    decreases n,
{
    if n == 0 {
        Seq::empty()
    } else {
        let k = kept_layers(layers, shapes, (n - 1) as nat);
        if layer_used(shapes, n - 1) {
            k.push(layers[n - 1])
        } else {
            k
        }
    }
}

/// Every layer carries at least one shape.
pub open spec fn all_layers_used(s: SnapshotView) -> bool {
    forall|j: int| 0 <= j < s.layers.len() ==> layer_used(s.shapes, j)
}

/// The state after removing the layers without shapes and renumbering the
/// layer references of the shapes and the active layer.
pub open spec fn without_empty_layers(s: SnapshotView) -> SnapshotView {
    if all_layers_used(s) {
        s
    } else {
        SnapshotView {
            layers: kept_layers(s.layers, s.shapes, s.layers.len()),
            shapes: s.shapes.map_values(
                |sh: Shape| Shape { layer_id: used_below(s.shapes, sh.layer_id as nat) as usize, ..sh },
            ),
            active_layer: if layer_used(s.shapes, s.active_layer as int) {
                used_below(s.shapes, s.active_layer as nat) as usize
            } else {
                0
            },
            ..s
        }
    }
}

pub proof fn lemma_used_below_bounds(shapes: Seq<Shape>, n: nat, m: nat)
    requires
        m <= n,
    ensures
        used_below(shapes, m) <= used_below(shapes, n),
        used_below(shapes, n) <= n,
        used_below(shapes, n) - used_below(shapes, m) <= n - m,
    decreases n,
{
    if n > 0 {
        if m < n {
            lemma_used_below_bounds(shapes, (n - 1) as nat, m);
        } else {
            lemma_used_below_bounds(shapes, (n - 1) as nat, (n - 1) as nat);
        }
    }
}

pub proof fn lemma_used_below_strict(shapes: Seq<Shape>, j: nat, n: nat)
    requires
        j < n,
        layer_used(shapes, j as int),
    ensures
        used_below(shapes, j) < used_below(shapes, n),
    decreases n,
{
    if j + 1 < n {
        lemma_used_below_strict(shapes, j, (n - 1) as nat);
        lemma_used_below_bounds(shapes, (n - 1) as nat, (n - 1) as nat);
    }
}

pub proof fn lemma_used_below_full(shapes: Seq<Shape>, n: nat)
    ensures
        used_below(shapes, n) == n <==> (forall|j: int| 0 <= j < n ==> layer_used(shapes, j)),
    decreases n,
{
    if n > 0 {
        lemma_used_below_full(shapes, (n - 1) as nat);
        lemma_used_below_bounds(shapes, (n - 1) as nat, (n - 1) as nat);
        if used_below(shapes, n) == n {
            assert forall|j: int| 0 <= j < n implies layer_used(shapes, j) by {
                if j < n - 1 {
                } else {
                }
            }
        }
    }
}

pub proof fn lemma_kept_layers(layers: Seq<LayerView>, shapes: Seq<Shape>, n: nat)
    requires
        n <= layers.len(),
    ensures
        kept_layers(layers, shapes, n).len() == used_below(shapes, n),
        forall|j: int|
            0 <= j < n && layer_used(shapes, j) ==> #[trigger] kept_layers(layers, shapes, n)[used_below(
                shapes,
                j as nat,
            ) as int] == layers[j],
    decreases n,
{
    if n > 0 {
        lemma_kept_layers(layers, shapes, (n - 1) as nat);
        assert forall|j: int|
            0 <= j < n && layer_used(shapes, j) implies #[trigger] kept_layers(layers, shapes, n)[used_below(
            shapes,
            j as nat,
        ) as int] == layers[j] by {
            if j < n - 1 {
                lemma_used_below_strict(shapes, j as nat, (n - 1) as nat);
            }
        }
    }
}

/// Every position of the kept layers is the image of a used layer.
pub proof fn lemma_kept_positions_hit(shapes: Seq<Shape>, n: nat, k: nat)
    requires
        k < used_below(shapes, n),
    ensures
        exists|j: int| 0 <= j < n && layer_used(shapes, j) && used_below(shapes, j as nat) == k,
    decreases n,
{
    if n > 0 {
        if k < used_below(shapes, (n - 1) as nat) {
            lemma_kept_positions_hit(shapes, (n - 1) as nat, k);
            let j = choose|j: int|
                0 <= j < n - 1 && layer_used(shapes, j) && used_below(shapes, j as nat) == k;
            assert(0 <= j < n && layer_used(shapes, j) && used_below(shapes, j as nat) == k);
        } else {
            assert(layer_used(shapes, n - 1));
            assert(used_below(shapes, (n - 1) as nat) == k);
        }
    }
}

/// Removing empty layers keeps every shape on the same layer, leaves no layer
/// without shapes, and keeps every shape reference valid.
pub proof fn remove_empty_layers_keeps_assignment(s: SnapshotView)
    requires
        s.wf(),
    ensures
        without_empty_layers(s).wf(),
        all_layers_used(without_empty_layers(s)),
        without_empty_layers(s).shapes.len() == s.shapes.len(),
        forall|i: int|
            0 <= i < s.shapes.len() ==> #[trigger] without_empty_layers(s).layers[without_empty_layers(
                s,
            ).shapes[i].layer_id as int] == s.layers[s.shapes[i].layer_id as int],
        forall|i: int|
            0 <= i < s.shapes.len() ==> #[trigger] without_empty_layers(s).shapes[i].geo
                == s.shapes[i].geo,
{
    let r = without_empty_layers(s);
    if !all_layers_used(s) {
        let n = s.layers.len();
        lemma_kept_layers(s.layers, s.shapes, n);
        assert forall|i: int| 0 <= i < s.shapes.len() implies #[trigger] r.shapes[i].layer_id
            < r.layers.len() && r.layers[r.shapes[i].layer_id as int]
            == s.layers[s.shapes[i].layer_id as int] by {
            let j = s.shapes[i].layer_id;
            assert(layer_used(s.shapes, j as int));
            lemma_used_below_strict(s.shapes, j as nat, n);
            lemma_used_below_bounds(s.shapes, j as nat, j as nat);
            assert(r.shapes[i].layer_id == used_below(s.shapes, j as nat));
            assert(r.layers == kept_layers(s.layers, s.shapes, n));
            let ji: int = j as int;
            assert(0 <= ji < n && layer_used(s.shapes, ji));
            assert(kept_layers(s.layers, s.shapes, n)[used_below(s.shapes, ji as nat) as int]
                == s.layers[ji]);
        }
        assert forall|k: int| 0 <= k < r.layers.len() implies layer_used(r.shapes, k) by {
            lemma_kept_positions_hit(s.shapes, n, k as nat);
            let j = choose|j: int|
                0 <= j < n && layer_used(s.shapes, j) && used_below(s.shapes, j as nat) == k;
            let i = choose|i: int| 0 <= i < s.shapes.len() && #[trigger] s.shapes[i].layer_id == j;
            lemma_used_below_bounds(s.shapes, j as nat, j as nat);
            assert(r.shapes[i].layer_id == k);
        }
    }
}

// ---- moving layers ---------------------------------------------------------

/// New position of the layer at `old` after moving the layer at `from` to `to`.
pub open spec fn moved_index(old: usize, from: usize, to: usize) -> usize {
    if old == from {
        to
    } else if from < to {
        if old > from && old <= to {
            (old - 1) as usize
        } else {
            old
        }
    } else {
        if old >= to && old < from {
            (old + 1) as usize
        } else {
            old
        }
    }
}

/// The state after moving the layer at `from` to position `to` (no undo point).
pub open spec fn layer_moved(s: SnapshotView, from: usize, to: usize) -> SnapshotView {
    SnapshotView {
        layers: s.layers.remove(from as int).insert(to as int, s.layers[from as int]),
        shapes: s.shapes.map_values(
            |sh: Shape| Shape { layer_id: moved_index(sh.layer_id, from, to), ..sh },
        ),
        active_layer: moved_index(s.active_layer, from, to),
        ..s
    }
}

/// Whether `move_layer(from, to)` changes anything.
pub open spec fn move_applies(s: SnapshotView, from: usize, to: usize) -> bool {
    from < s.layers.len() && to < s.layers.len() && from != to
}

/// Moving a layer permutes the layers and keeps every shape on its layer.
pub proof fn move_layer_keeps_assignment(s: SnapshotView, from: usize, to: usize)
    requires
        s.wf(),
        move_applies(s, from, to),
    ensures
        layer_moved(s, from, to).wf(),
        layer_moved(s, from, to).layers.len() == s.layers.len(),
        forall|j: usize|
            j < s.layers.len() ==> #[trigger] layer_moved(s, from, to).layers[moved_index(
                j,
                from,
                to,
            ) as int] == s.layers[j as int],
        forall|i: int|
            0 <= i < s.shapes.len() ==> #[trigger] layer_moved(s, from, to).layers[layer_moved(
                s,
                from,
                to,
            ).shapes[i].layer_id as int] == s.layers[s.shapes[i].layer_id as int],
{
    let r = layer_moved(s, from, to);
    assert forall|j: usize| j < s.layers.len() implies #[trigger] r.layers[moved_index(
        j,
        from,
        to,
    ) as int] == s.layers[j as int] && moved_index(j, from, to) < s.layers.len() by {
    }
    assert forall|i: int| 0 <= i < s.shapes.len() implies #[trigger] r.layers[r.shapes[i].layer_id as int]
        == s.layers[s.shapes[i].layer_id as int] && r.shapes[i].layer_id < r.layers.len() by {
        let j = s.shapes[i].layer_id;
        assert(r.layers[moved_index(j, from, to) as int] == s.layers[j as int]);
    }
}

} // verus!

verus! {

/// The state after clicking colour `c` in the palette.
///
/// With a selection, the selected shapes move to the layer of that colour
/// (created when missing), which becomes active, and empty layers disappear —
/// one undo point. Without a selection, an existing layer of that colour
/// becomes active and the colour is remembered for the next shape.
pub open spec fn activated(v: AppStateView, c: [u8; 3]) -> AppStateView {
    if v.current.selected.len() > 0 {
        let p = v.pushed();
        let s1 = with_color_layer(p.current, c);
        let lid = color_slot(p.current, c);
        let s2 = SnapshotView {
            active_layer: lid,
            shapes: assign_selected(s1.shapes, s1.selected, lid),
            ..s1
        };
        p.with_current(without_empty_layers(s2))
    } else {
        let s = v.current;
        let active = match color_position(s.layers, c) {
            Some(i) => i as usize,
            None => s.active_layer,
        };
        v.with_current(SnapshotView { active_layer: active, pending_color: Some(c), ..s })
    }
}

/// The state after `move_layer(from, to)`.
pub open spec fn layer_move_result(v: AppStateView, from: usize, to: usize) -> AppStateView {
    if move_applies(v.current, from, to) {
        v.pushed().with_current(layer_moved(v.current, from, to))
    } else {
        v
    }
}

/// Position of the first layer with colour `c`.
pub fn find_color(layers: &Vec<Layer>, c: [u8; 3]) -> (r: Option<usize>)
    ensures
        match r {
            Some(i) => color_position(layer_views(layers@), c) == Some(i as int),
            None => color_position(layer_views(layers@), c) is None,
        },
{
    let ghost lv = layer_views(layers@);
    let mut i: usize = 0;
    while i < layers.len()
        invariant
            i <= layers.len(),
            lv == layer_views(layers@),
            forall|k: int| 0 <= k < i ==> !same_color(#[trigger] lv[k].color, c),
        decreases layers.len() - i,
    {
        if color_eq(layers[i].color, c) {
            proof {
                assert(is_first_color(lv, c, i as int));
                let j = choose|j: int| is_first_color(lv, c, j);
                lemma_first_color_unique(lv, c, i as int, j);
            }
            return Some(i);
        }
        i = i + 1;
    }
    proof {
        assert(!exists|j: int| is_first_color(lv, c, j)) by {
            if exists|j: int| is_first_color(lv, c, j) {
                let j = choose|j: int| is_first_color(lv, c, j);
                assert(!same_color(lv[j].color, c));
            }
        }
    }
    None
}

/// Does `v` hold `x`?
pub fn contains_index(v: &Vec<usize>, x: usize) -> (r: bool)
    ensures
        r == v@.contains(x),
{
    let mut i: usize = 0;
    while i < v.len()
        invariant
            i <= v.len(),
            forall|k: int| 0 <= k < i ==> v@[k] != x,
        decreases v.len() - i,
    {
        if v[i] == x {
            assert(v@[i as int] == x);
            return true;
        }
        i = i + 1;
    }
    false
}

fn moved(old: usize, from: usize, to: usize) -> (r: usize)
    ensures
        r == moved_index(old, from, to),
{
    if old == from {
        to
    } else if from < to {
        if old > from && old <= to {
            old - 1
        } else {
            old
        }
    } else {
        if old >= to && old < from {
            old + 1
        } else {
            old
        }
    }
}

impl AppState {
    /// Index of a layer with colour `color`; creates it when missing.
    fn find_or_create_layer(&mut self, color: [u8; 3]) -> (r: usize)
        requires
            old(self).layers.len() < usize::MAX - 1,
        ensures
            final(self)@ == old(self)@.with_current(with_color_layer(old(self)@.current, color)),
            r == color_slot(old(self)@.current, color),
    {
        match find_color(&self.layers, color) {
            Some(i) => i,
            None => {
                let idx = self.layers.len();
                let l = Layer::with_color(idx, color);
                let ghost before = self.layers@;
                self.layers.push(l);
                assert(layer_views(self.layers@) =~= layer_views(before).push(
                    fresh_layer(layer_name(idx as nat), color),
                ));
                idx
            },
        }
    }

    /// Removes the layers without shapes and renumbers the layer references of
    /// all shapes and the active layer. When no layer is left the list stays
    /// empty, as in a freshly started project.
    pub fn remove_empty_layers(&mut self)
        requires
            old(self)@.current.wf(),
        ensures
            final(self)@ == old(self)@.with_current(without_empty_layers(old(self)@.current)),
    {
        let ghost s = old(self)@.current;
        let n = self.layers.len();
        let mut used: Vec<bool> = Vec::new();
        let mut j: usize = 0;
        while j < n
            invariant
                j <= n,
                used@.len() == j,
                forall|k: int| 0 <= k < j ==> !used@[k],
            decreases n - j,
        {
            used.push(false);
            j = j + 1;
        }
        let mut i: usize = 0;
        while i < self.shapes.len()
            invariant
                self@ == old(self)@,
                s == self@.current,
                s.wf(),
                n == s.layers.len(),
                i <= s.shapes.len(),
                used@.len() == n,
                forall|k: int|
                    0 <= k < n ==> #[trigger] used@[k] == exists|m: int|
                        0 <= m < i && s.shapes[m].layer_id == k,
            decreases s.shapes.len() - i,
        {
            let lid = self.shapes[i].layer_id;
            assert(s.shapes[i as int].layer_id < n);
            used.set(lid, true);
            assert forall|k: int| 0 <= k < n implies #[trigger] used@[k] == exists|m: int|
                0 <= m < i + 1 && s.shapes[m].layer_id == k by {
                if k == lid {
                    assert(s.shapes[i as int].layer_id == k);
                } else {
                    if exists|m: int| 0 <= m < i + 1 && s.shapes[m].layer_id == k {
                        let m = choose|m: int| 0 <= m < i + 1 && s.shapes[m].layer_id == k;
                        assert(m < i);
                    }
                }
            }
            i = i + 1;
        }
        assert forall|k: int| 0 <= k < n implies #[trigger] used@[k] == layer_used(s.shapes, k) by {
            if used@[k] {
                let m = choose|m: int| 0 <= m < s.shapes.len() && s.shapes[m].layer_id == k;
                assert(s.shapes[m].layer_id == k);
            }
            if layer_used(s.shapes, k) {
                let m = choose|m: int| 0 <= m < s.shapes.len() && #[trigger] s.shapes[m].layer_id == k;
                assert(0 <= m < s.shapes.len() && s.shapes[m].layer_id == k);
            }
        }
        let mut remap: Vec<usize> = Vec::new();
        let mut kept: Vec<Layer> = Vec::new();
        let mut count: usize = 0;
        let mut j: usize = 0;
        while j < n
            invariant
                self@ == old(self)@,
                s == self@.current,
                n == s.layers.len(),
                j <= n,
                used@.len() == n,
                forall|k: int| 0 <= k < n ==> #[trigger] used@[k] == layer_used(s.shapes, k),
                remap@.len() == j,
                count == used_below(s.shapes, j as nat),
                count <= j,
                forall|k: int| 0 <= k < j ==> #[trigger] remap@[k] == used_below(s.shapes, k as nat),
                layer_views(kept@) == kept_layers(s.layers, s.shapes, j as nat),
            decreases n - j,
        {
            remap.push(count);
            if used[j] {
                let ghost before = kept@;
                let l = self.layers[j].duplicate();
                kept.push(l);
                assert(layer_views(kept@) =~= layer_views(before).push(s.layers[j as int]));
                count = count + 1;
            }
            j = j + 1;
        }
        proof {
            lemma_used_below_full(s.shapes, n as nat);
        }
        if count == n {
            return;
        }
        let mut new_shapes: Vec<Shape> = Vec::new();
        let mut i: usize = 0;
        while i < self.shapes.len()
            invariant
                s == self@.current,
                s.wf(),
                n == s.layers.len(),
                i <= s.shapes.len(),
                remap@.len() == n,
                forall|k: int| 0 <= k < n ==> #[trigger] remap@[k] == used_below(s.shapes, k as nat),
                new_shapes@.len() == i,
                forall|m: int|
                    0 <= m < i ==> #[trigger] new_shapes@[m] == (Shape {
                        layer_id: used_below(s.shapes, s.shapes[m].layer_id as nat) as usize,
                        ..s.shapes[m]
                    }),
            decreases s.shapes.len() - i,
        {
            let mut sh = self.shapes[i];
            assert(s.shapes[i as int].layer_id < n);
            sh.layer_id = remap[sh.layer_id];
            new_shapes.push(sh);
            i = i + 1;
        }
        self.layers = kept;
        self.shapes = new_shapes;
        if self.active_layer < n && used[self.active_layer] {
            self.active_layer = remap[self.active_layer];
        } else {
            self.active_layer = 0;
        }
        proof {
            assert(self.shapes@ =~= s.shapes.map_values(
                |sh: Shape| Shape { layer_id: used_below(s.shapes, sh.layer_id as nat) as usize, ..sh },
            ));
            if layer_used(s.shapes, s.active_layer as int) {
                let m = choose|m: int|
                    0 <= m < s.shapes.len() && #[trigger] s.shapes[m].layer_id == s.active_layer;
                assert(s.shapes[m].layer_id < n);
            }
        }
    }

    /// Moves the layer at `from` to position `to`. The order of the layer list
    /// is the burn order; all shape references and the active layer are
    /// renumbered in the same operation so that every shape stays on its layer.
    /// Invalid indices or `from == to` change nothing (no undo point).
    pub fn move_layer(&mut self, from: usize, to: usize)
        ensures
            final(self)@ == layer_move_result(old(self)@, from, to),
    {
        let n = self.layers.len();
        if from >= n || to >= n || from == to {
            return;
        }
        self.push_undo();
        let ghost mid = self@;
        let ghost before = self.layers@;
        let layer = self.layers.remove(from);
        self.layers.insert(to, layer);
        assert(layer_views(self.layers@) =~= layer_views(before).remove(from as int).insert(
            to as int,
            layer_views(before)[from as int],
        ));
        let ghost orig = self.shapes@;
        let mut new_shapes: Vec<Shape> = Vec::new();
        let mut i: usize = 0;
        while i < self.shapes.len()
            invariant
                orig == self.shapes@,
                i <= orig.len(),
                new_shapes@.len() == i,
                forall|m: int|
                    0 <= m < i ==> #[trigger] new_shapes@[m] == (Shape {
                        layer_id: moved_index(orig[m].layer_id, from, to),
                        ..orig[m]
                    }),
            decreases orig.len() - i,
        {
            let mut sh = self.shapes[i];
            sh.layer_id = moved(sh.layer_id, from, to);
            new_shapes.push(sh);
            i = i + 1;
        }
        self.shapes = new_shapes;
        self.active_layer = moved(self.active_layer, from, to);
        assert(self.shapes@ =~= orig.map_values(
            |sh: Shape| Shape { layer_id: moved_index(sh.layer_id, from, to), ..sh },
        ));
    }

    /// Colour click from the palette — the core of the colour = layer model.
    pub fn activate_color(&mut self, color: [u8; 3])
        requires
            old(self)@.current.wf(),
            old(self)@.current.layers.len() < usize::MAX - 1,
        ensures
            final(self)@ == activated(old(self)@, color),
    {
        if self.selected.len() > 0 {
            self.push_undo();
            let layer_id = self.find_or_create_layer(color);
            self.active_layer = layer_id;
            let ghost orig = self.shapes@;
            let ghost sel = self.selected@;
            let mut new_shapes: Vec<Shape> = Vec::new();
            let mut m: usize = 0;
            while m < self.shapes.len()
                invariant
                    orig == self.shapes@,
                    sel == self.selected@,
                    m <= orig.len(),
                    new_shapes@ =~= assign_selected(orig, sel, layer_id).subrange(0, m as int),
                decreases orig.len() - m,
            {
                let mut sh = self.shapes[m];
                if contains_index(&self.selected, m) {
                    sh.layer_id = layer_id;
                }
                new_shapes.push(sh);
                m = m + 1;
            }
            assert(new_shapes@ =~= assign_selected(orig, sel, layer_id));
            self.shapes = new_shapes;
            proof {
                let s2 = self@.current;
                assert forall|i: int| 0 <= i < s2.shapes.len() implies #[trigger] s2.shapes[i].layer_id
                    < s2.layers.len() by {
                    assert(old(self)@.current.shapes[i].layer_id < old(self)@.current.layers.len());
                }
            }
            self.remove_empty_layers();
        } else {
            match find_color(&self.layers, color) {
                Some(i) => {
                    self.active_layer = i;
                },
                None => {},
            }
            self.pending_color = Some(color);
        }
    }
}

} // verus!

verus! {

/// Clicking a colour with a selection puts every selected shape on a layer of
/// that colour, keeps every other shape on its layer, and leaves no empty
/// layer behind.
pub proof fn activate_color_moves_selection(v: AppStateView, c: [u8; 3])
    requires
        v.current.wf(),
        v.current.selected.len() > 0,
        v.current.layers.len() < usize::MAX - 1,
    ensures
        activated(v, c).current.wf(),
        all_layers_used(activated(v, c).current),
        activated(v, c).current.shapes.len() == v.current.shapes.len(),
        forall|i: int|
            #![trigger v.current.shapes[i]]
            0 <= i < v.current.shapes.len() ==> {
                let r = activated(v, c).current;
                if v.current.selected.contains(i as usize) {
                    same_color(r.layers[r.shapes[i].layer_id as int].color, c)
                } else {
                    r.layers[r.shapes[i].layer_id as int] == v.current.layers[v.current.shapes[i].layer_id as int]
                }
            },
        activated(v, c).undo == v.undo.push(v.current),
{
    let p = v.pushed();
    let s1 = with_color_layer(p.current, c);
    let lid = color_slot(p.current, c);
    let s2 = SnapshotView {
        active_layer: lid,
        shapes: assign_selected(s1.shapes, s1.selected, lid),
        ..s1
    };
    assert(lid < s1.layers.len() && same_color(s1.layers[lid as int].color, c)) by {
        match color_position(p.current.layers, c) {
            Some(i) => {
                assert(exists|j: int| is_first_color(p.current.layers, c, j));
                let j = choose|j: int| is_first_color(p.current.layers, c, j);
                assert(is_first_color(p.current.layers, c, j));
            },
            None => {
                assert(s1.layers[lid as int] == fresh_layer(layer_name(p.current.layers.len()), c));
                assert(fresh_layer(layer_name(p.current.layers.len()), c).color@ =~= c@);
            },
        }
    }
    assert forall|i: int| 0 <= i < s1.layers.len() && i < v.current.layers.len() implies s1.layers[i]
        == v.current.layers[i] by {}
    assert(s2.wf()) by {
        assert forall|i: int| 0 <= i < s2.shapes.len() implies #[trigger] s2.shapes[i].layer_id
            < s2.layers.len() by {
            assert(v.current.shapes[i].layer_id < v.current.layers.len());
        }
    }
    remove_empty_layers_keeps_assignment(s2);
    assert forall|i: int| #![trigger v.current.shapes[i]] 0 <= i < v.current.shapes.len() implies {
        let r = activated(v, c).current;
        if v.current.selected.contains(i as usize) {
            same_color(r.layers[r.shapes[i].layer_id as int].color, c)
        } else {
            r.layers[r.shapes[i].layer_id as int] == v.current.layers[v.current.shapes[i].layer_id as int]
        }
    } by {
        let r = without_empty_layers(s2);
        assert(r.layers[r.shapes[i].layer_id as int] == s2.layers[s2.shapes[i].layer_id as int]);
        assert(v.current.shapes[i].layer_id < v.current.layers.len());
    }
}

} // verus!

verus! {

// ---- the layer of a newly drawn shape --------------------------------------

/// `i` is the first layer that is not an image layer.
pub open spec fn is_first_non_image(layers: Seq<LayerView>, i: int) -> bool {
    &&& 0 <= i < layers.len()
    &&& !(layers[i].mode is Image)
    &&& forall|k: int| 0 <= k < i ==> (#[trigger] layers[k].mode is Image)
}

pub open spec fn non_image_position(layers: Seq<LayerView>) -> Option<int> {
    if exists|i: int| is_first_non_image(layers, i) {
        Some(choose|i: int| is_first_non_image(layers, i))
    } else {
        None
    }
}

/// The active layer can take a drawn shape (exists and is no image layer).
pub open spec fn active_takes_drawing(s: SnapshotView) -> bool {
    s.active_layer < s.layers.len() && !(s.layers[s.active_layer as int].mode is Image)
}

/// The state with the layer that a newly drawn shape goes to: the layer of
/// the pending colour (created when missing), else the active layer unless it
/// is an image layer, else the first non-image layer, else a new layer.
pub open spec fn drawing_layer(s: SnapshotView) -> SnapshotView {
    match s.pending_color {
        Some(c) => with_color_layer(s, c),
        None => if active_takes_drawing(s) || non_image_position(s.layers) is Some {
            s
        } else {
            SnapshotView {
                layers: s.layers.push(fresh_layer(layer_name(s.layers.len()), swatch(s.layers.len()))),
                ..s
            }
        },
    }
}

/// Index of the layer that a newly drawn shape goes to.
pub open spec fn drawing_slot(s: SnapshotView) -> usize {
    match s.pending_color {
        Some(c) => color_slot(s, c),
        None => if active_takes_drawing(s) {
            s.active_layer
        } else {
            match non_image_position(s.layers) {
                Some(i) => i as usize,
                None => s.layers.len() as usize,
            }
        },
    }
}

/// The state after `add_shape(geo)`.
pub open spec fn shape_added(v: AppStateView, geo: u64) -> AppStateView {
    let p = v.pushed();
    let s = drawing_layer(p.current);
    let lid = drawing_slot(p.current);
    p.with_current(
        SnapshotView {
            shapes: s.shapes.push(new_shape(lid, geo)),
            selected: seq![s.shapes.len() as usize],
            pending_color: None,
            ..s
        },
    )
}

/// Outline keys of the contours with at least two points, in order.
pub open spec fn drawable(contours: Seq<(u64, usize)>) -> Seq<u64>
    decreases contours.len(),
{
    if contours.len() == 0 {
        Seq::empty()
    } else {
        let rest = drawable(contours.drop_last());
        if contours.last().1 >= 2 {
            rest.push(contours.last().0)
        } else {
            rest
        }
    }
}

/// The state after `add_polylines(contours)`.
pub open spec fn polylines_added(v: AppStateView, contours: Seq<(u64, usize)>) -> AppStateView {
    let geos = drawable(contours);
    if geos.len() == 0 {
        v
    } else {
        let p = v.pushed();
        let s = drawing_layer(p.current);
        let lid = drawing_slot(p.current);
        p.with_current(
            SnapshotView {
                shapes: s.shapes + geos.map_values(|g: u64| new_shape(lid, g)),
                selected: Seq::new(geos.len(), |k: int| (s.shapes.len() + k) as usize),
                pending_color: None,
                ..s
            },
        )
    }
}

/// Number of image layers.
pub open spec fn image_layer_count(layers: Seq<LayerView>) -> nat
    decreases layers.len(),
{
    if layers.len() == 0 {
        0
    } else {
        image_layer_count(layers.drop_last()) + if layers.last().mode is Image {
            1nat
        } else {
            0nat
        }
    }
}

/// The image layer created for the image number `seed + 1`.
pub open spec fn image_layer(index: nat, seed: nat, color: [u8; 3]) -> LayerView {
    LayerView {
        name: image_layer_name(seed),
        mode: LayerMode::Image,
        ..fresh_layer(layer_name(index), color)
    }
}

/// The state after `add_image(geo, color)`.
pub open spec fn image_added(v: AppStateView, geo: u64, color: [u8; 3]) -> AppStateView {
    let p = v.pushed();
    let s = p.current;
    let lid = s.layers.len() as usize;
    p.with_current(
        SnapshotView {
            layers: s.layers.push(image_layer(s.layers.len(), image_layer_count(s.layers), color)),
            shapes: s.shapes.push(new_shape(lid, geo)),
            selected: seq![s.shapes.len() as usize],
            active_layer: lid,
            pending_color: None,
        },
    )
}

pub proof fn lemma_image_layer_count_bound(layers: Seq<LayerView>)
    ensures
        image_layer_count(layers) <= layers.len(),
    decreases layers.len(),
{
    if layers.len() > 0 {
        lemma_image_layer_count_bound(layers.drop_last());
    }
}

/// A newly drawn shape keeps every reference valid, takes the pending colour
/// when one is set, and otherwise never lands on an image layer.
pub proof fn add_shape_lands_on_drawing_layer(v: AppStateView, geo: u64)
    requires
        v.current.wf(),
        v.current.layers.len() < usize::MAX - 1,
        v.current.shapes.len() < usize::MAX,
    ensures
        shape_added(v, geo).current.wf(),
        ({
            let r = shape_added(v, geo).current;
            let new = r.shapes.last();
            &&& new.layer_id < r.layers.len()
            &&& (v.current.pending_color is None ==> !(r.layers[new.layer_id as int].mode is Image))
            &&& r.selected == seq![(r.shapes.len() - 1) as usize]
            &&& (v.current.pending_color matches Some(c) ==> same_color(r.layers[new.layer_id as int].color, c))
        }),
        shape_added(v, geo).undo == v.undo.push(v.current),
{
    let s0 = v.current;
    let s = drawing_layer(s0);
    let lid = drawing_slot(s0);
    let r = shape_added(v, geo).current;
    assert(lid < s.layers.len() && (s0.pending_color is None ==> !(s.layers[lid as int].mode is Image)) && forall|i: int|
        0 <= i < s0.layers.len() ==> s.layers[i] == s0.layers[i]) by {
        match s0.pending_color {
            Some(c) => {
                match color_position(s0.layers, c) {
                    Some(i) => {
                        let j = choose|j: int| is_first_color(s0.layers, c, j);
                        assert(is_first_color(s0.layers, c, j));
                    },
                    None => {},
                }
            },
            None => {
                if !active_takes_drawing(s0) {
                    match non_image_position(s0.layers) {
                        Some(i) => {
                            let j = choose|j: int| is_first_non_image(s0.layers, j);
                            assert(is_first_non_image(s0.layers, j));
                        },
                        None => {},
                    }
                }
            },
        }
    }
    assert forall|i: int| 0 <= i < r.shapes.len() implies #[trigger] r.shapes[i].layer_id
        < r.layers.len() by {
        if i < s0.shapes.len() {
            assert(s0.shapes[i].layer_id < s0.layers.len());
        }
    }
    if let Some(c) = s0.pending_color {
        match color_position(s0.layers, c) {
            Some(i) => {
                let j = choose|j: int| is_first_color(s0.layers, c, j);
                assert(is_first_color(s0.layers, c, j));
            },
            None => {
                assert(fresh_layer(layer_name(s0.layers.len()), c).color@ =~= c@);
            },
        }
    }
}

/// Without a pending colour a newly drawn shape goes to the active layer when
/// that layer exists and is no image layer; otherwise to the first layer
/// that is no image layer; and only when every layer is an image layer to a
/// new layer behind them. The layers that were there stay as they were.
pub proof fn new_shape_prefers_active_layer(v: AppStateView, geo: u64)
    requires
        v.current.pending_color is None,
        v.current.layers.len() < usize::MAX - 1,
    ensures
        ({
            let s = v.current;
            let r = shape_added(v, geo).current;
            let lid = r.shapes.last().layer_id as int;
            &&& r.shapes.len() == s.shapes.len() + 1
            &&& r.shapes.drop_last() == s.shapes
            &&& r.shapes.last().geo == geo
            &&& forall|i: int| 0 <= i < s.layers.len() ==> #[trigger] r.layers[i] == s.layers[i]
            &&& (s.active_layer < s.layers.len() && !(s.layers[s.active_layer as int].mode is Image)
                ==> lid == s.active_layer)
            &&& (!(s.active_layer < s.layers.len() && !(s.layers[s.active_layer as int].mode is Image))
                && (exists|j: int| 0 <= j < s.layers.len() && !(#[trigger] s.layers[j].mode is Image))
                ==> {
                &&& 0 <= lid < s.layers.len()
                &&& !(s.layers[lid].mode is Image)
                &&& forall|k: int| 0 <= k < lid ==> (#[trigger] s.layers[k].mode is Image)
            })
            &&& ((forall|j: int| 0 <= j < s.layers.len() ==> (#[trigger] s.layers[j].mode is Image))
                ==> lid == s.layers.len() && r.layers.len() == s.layers.len() + 1)
        }),
{
    let s = v.current;
    let r = shape_added(v, geo).current;
    assert(r.shapes.drop_last() =~= s.shapes);
    if !active_takes_drawing(s) {
        if exists|j: int| 0 <= j < s.layers.len() && !(#[trigger] s.layers[j].mode is Image) {
            let j0 = choose|j: int| 0 <= j < s.layers.len() && !(#[trigger] s.layers[j].mode is Image);
            lemma_first_non_image_exists(s.layers, j0);
            let j = choose|j: int| is_first_non_image(s.layers, j);
            assert(is_first_non_image(s.layers, j));
        } else {
            assert forall|j: int| !is_first_non_image(s.layers, j) by {
                if is_first_non_image(s.layers, j) {
                    assert(0 <= j < s.layers.len() && !(s.layers[j].mode is Image));
                }
            }
        }
    }
}

/// Some layer is no image layer, so there is a first such layer.
proof fn lemma_first_non_image_exists(layers: Seq<LayerView>, j: int)
    requires
        0 <= j < layers.len(),
        !(layers[j].mode is Image),
    ensures
        exists|i: int| is_first_non_image(layers, i),
    decreases j,
{
    if forall|k: int| 0 <= k < j ==> (#[trigger] layers[k].mode is Image) {
        assert(is_first_non_image(layers, j));
    } else {
        let k = choose|k: int| 0 <= k < j && !(#[trigger] layers[k].mode is Image);
        lemma_first_non_image_exists(layers, k);
    }
}

// ---- groups and deletion ---------------------------------------------------

/// Some selected shape belongs to group `g`.
pub open spec fn selected_group(s: SnapshotView, g: u32) -> bool {
    exists|k: int|
        0 <= k < s.selected.len() && s.selected[k] < s.shapes.len() && #[trigger] s.shapes[s.selected[k] as int].group_id
            == Some(g)
}

/// Shape `i` joins the selection when its group is selected.
pub open spec fn joins_selection(s: SnapshotView, i: int) -> bool {
    &&& s.shapes[i].group_id matches Some(g) && selected_group(s, g)
    &&& !s.selected.contains(i as usize)
}

/// Shapes `0..n` that join the selection, in order.
pub open spec fn group_joiners(s: SnapshotView, n: nat) -> Seq<usize>
    decreases n,
{
    if n == 0 {
        Seq::empty()
    } else {
        let rest = group_joiners(s, (n - 1) as nat);
        if joins_selection(s, n - 1) {
            rest.push((n - 1) as usize)
        } else {
            rest
        }
    }
}

/// The state with the selection widened to whole groups.
pub open spec fn expanded_to_groups(s: SnapshotView) -> SnapshotView {
    SnapshotView { selected: s.selected + group_joiners(s, s.shapes.len()), ..s }
}

/// Largest group id in use (0 when none).
pub open spec fn max_group(shapes: Seq<Shape>) -> nat
    decreases shapes.len(),
{
    if shapes.len() == 0 {
        0
    } else {
        let rest = max_group(shapes.drop_last());
        match shapes.last().group_id {
            Some(g) => if g > rest {
                g as nat
            } else {
                rest
            },
            None => rest,
        }
    }
}

/// The selected shapes joined under a fresh group id (one above the largest
/// in use).
pub open spec fn group_selection(s: SnapshotView) -> SnapshotView {
    let next = (max_group(s.shapes) + 1) as u32;
    SnapshotView {
        shapes: Seq::new(
            s.shapes.len(),
            |i: int|
                if s.selected.contains(i as usize) {
                    Shape { group_id: Some(next), ..s.shapes[i] }
                } else {
                    s.shapes[i]
                },
        ),
        ..s
    }
}

/// The state after `group_selected`.
pub open spec fn grouped(v: AppStateView) -> AppStateView {
    if v.current.selected.len() < 2 {
        v
    } else {
        let p = v.pushed();
        p.with_current(group_selection(p.current))
    }
}

/// The state after `add_text_block(contours)`: the drawable contours are
/// added as shapes (one undo point) and joined into one fresh group.
pub open spec fn text_block_added(v: AppStateView, contours: Seq<(u64, usize)>) -> AppStateView {
    if drawable(contours).len() == 0 {
        v
    } else {
        let a = polylines_added(v, contours);
        a.with_current(group_selection(a.current))
    }
}

/// Adding shapes without groups keeps the largest group id.
proof fn lemma_max_group_extends(v: AppStateView, contours: Seq<(u64, usize)>)
    requires
        drawable(contours).len() > 0,
    ensures
        max_group(polylines_added(v, contours).current.shapes) == max_group(v.current.shapes),
{
    let p = v.pushed();
    let s = drawing_layer(p.current);
    let lid = drawing_slot(p.current);
    let geos = drawable(contours);
    let added = geos.map_values(|g: u64| new_shape(lid, g));
    assert(s.shapes == v.current.shapes);
    lemma_max_group_ungrouped_suffix(s.shapes, added);
}

proof fn lemma_max_group_ungrouped_suffix(a: Seq<Shape>, b: Seq<Shape>)
    requires
        forall|i: int| 0 <= i < b.len() ==> (#[trigger] b[i]).group_id is None,
    ensures
        max_group(a + b) == max_group(a),
    decreases b.len(),
{
    if b.len() > 0 {
        lemma_max_group_ungrouped_suffix(a, b.drop_last());
        assert((a + b).drop_last() =~= a + b.drop_last());
    } else {
        assert(a + b =~= a);
    }
}

/// Some selected shape is grouped.
pub open spec fn selection_has_group(s: SnapshotView) -> bool {
    exists|k: int|
        0 <= k < s.selected.len() && s.selected[k] < s.shapes.len() && (#[trigger] s.shapes[s.selected[k] as int].group_id) is Some
}

/// The state after `ungroup_selected`.
pub open spec fn ungrouped(v: AppStateView) -> AppStateView {
    if !selection_has_group(v.current) {
        v
    } else {
        let p = v.pushed();
        let s = p.current;
        p.with_current(
            SnapshotView {
                shapes: Seq::new(
                    s.shapes.len(),
                    |i: int|
                        if s.selected.contains(i as usize) {
                            Shape { group_id: None, ..s.shapes[i] }
                        } else {
                            s.shapes[i]
                        },
                ),
                ..s
            },
        )
    }
}

/// Ungrouping touches only the selected shapes, and of them only the group:
/// a selected shape leaves its group and keeps its layer, outline and fill,
/// every unselected shape stays exactly as it was, and layers and selection
/// do not change. When no selected shape is grouped nothing changes at all.
pub proof fn ungroup_touches_only_the_selection(v: AppStateView)
    ensures
        ({
            let old_s = v.current;
            let new_s = ungrouped(v).current;
            &&& new_s.shapes.len() == old_s.shapes.len()
            &&& new_s.layers == old_s.layers
            &&& new_s.selected == old_s.selected
            &&& new_s.active_layer == old_s.active_layer
            &&& forall|i: int|
                0 <= i < old_s.shapes.len() && !old_s.selected.contains(i as usize)
                    ==> #[trigger] new_s.shapes[i] == old_s.shapes[i]
            &&& forall|i: int|
                0 <= i < old_s.shapes.len() && old_s.selected.contains(i as usize) ==> {
                    &&& (#[trigger] new_s.shapes[i]).layer_id == old_s.shapes[i].layer_id
                    &&& new_s.shapes[i].geo == old_s.shapes[i].geo
                    &&& new_s.shapes[i].fill_only == old_s.shapes[i].fill_only
                    &&& new_s.shapes[i].fill_group_id == old_s.shapes[i].fill_group_id
                    &&& (selection_has_group(old_s) ==> new_s.shapes[i].group_id is None)
                    &&& (!selection_has_group(old_s) ==> new_s.shapes[i] == old_s.shapes[i])
                }
        }),
{
}

/// The shapes `0..n` that are not selected, in order.
pub open spec fn unselected_shapes(shapes: Seq<Shape>, selected: Seq<usize>, n: nat) -> Seq<Shape>
    decreases n,
{
    if n == 0 {
        Seq::empty()
    } else {
        let rest = unselected_shapes(shapes, selected, (n - 1) as nat);
        if selected.contains((n - 1) as usize) {
            rest
        } else {
            rest.push(shapes[n - 1])
        }
    }
}

/// Shape `i` belongs to the text block of shape `idx`: the shapes of its
/// group, or the shape alone when it has none.
pub open spec fn in_block(shapes: Seq<Shape>, idx: int, i: int) -> bool {
    match shapes[idx].group_id {
        Some(g) => shapes[i].group_id == Some(g),
        None => i == idx,
    }
}

/// The first `n` shapes without the text block of shape `idx`.
pub open spec fn outside_block(shapes: Seq<Shape>, idx: int, n: nat) -> Seq<Shape>
    decreases n,
{
    if n == 0 {
        Seq::empty()
    } else {
        let rest = outside_block(shapes, idx, (n - 1) as nat);
        if in_block(shapes, idx, n - 1) {
            rest
        } else {
            rest.push(shapes[n - 1])
        }
    }
}

/// Largest compound fill id in use (0 when none).
pub open spec fn max_fill_group(shapes: Seq<Shape>) -> nat
    decreases shapes.len(),
{
    if shapes.len() == 0 {
        0
    } else {
        let rest = max_fill_group(shapes.drop_last());
        match shapes.last().fill_group_id {
            Some(g) => if g > rest {
                g as nat
            } else {
                rest
            },
            None => rest,
        }
    }
}

/// Some contour has a point.
pub open spec fn has_points(contours: Seq<(u64, usize)>) -> bool {
    exists|i: int| 0 <= i < contours.len() && #[trigger] contours[i].1 > 0
}

/// A shape of a new text block.
pub open spec fn block_shape(layer_id: usize, group: u32, fill_group: u32, geo: u64) -> Shape {
    Shape { layer_id, geo, fill_only: false, group_id: Some(group), fill_group_id: Some(fill_group) }
}

/// The state after `replace_text_block(idx, contours)`: in one undo step the
/// block of shape `idx` is removed, every contour becomes a shape on the
/// block's layer in one fresh group and one fresh compound fill, the new
/// shapes are selected, and layers left empty go away.
pub open spec fn text_block_replaced(v: AppStateView, idx: usize, contours: Seq<(u64, usize)>) -> AppStateView {
    if idx >= v.current.shapes.len() || !has_points(contours) {
        v
    } else {
        let p = v.pushed();
        let s = p.current;
        let lid = s.shapes[idx as int].layer_id;
        let rest = outside_block(s.shapes, idx as int, s.shapes.len());
        let g = (max_group(rest) + 1) as u32;
        let f = (max_fill_group(rest) + 1) as u32;
        let added = contours.map_values(|c: (u64, usize)| block_shape(lid, g, f, c.0));
        p.with_current(
            without_empty_layers(
                SnapshotView {
                    shapes: rest + added,
                    selected: Seq::new(contours.len(), |k: int| (rest.len() + k) as usize),
                    ..s
                },
            ),
        )
    }
}

proof fn lemma_outside_block(shapes: Seq<Shape>, idx: int, n: nat, bound: nat)
    requires
        n <= shapes.len(),
        0 <= idx < shapes.len(),
        forall|i: int| 0 <= i < shapes.len() ==> #[trigger] shapes[i].layer_id < bound,
    ensures
        forall|i: int|
            0 <= i < outside_block(shapes, idx, n).len() ==> #[trigger] outside_block(
                shapes,
                idx,
                n,
            )[i].layer_id < bound,
        outside_block(shapes, idx, n).len() <= n,
        max_group(outside_block(shapes, idx, n)) <= max_group(shapes.subrange(0, n as int)),
        max_fill_group(outside_block(shapes, idx, n)) <= max_fill_group(
            shapes.subrange(0, n as int),
        ),
    decreases n,
{
    if n > 0 {
        lemma_outside_block(shapes, idx, (n - 1) as nat, bound);
        assert(shapes.subrange(0, n as int).drop_last() =~= shapes.subrange(0, n - 1));
        let r = outside_block(shapes, idx, (n - 1) as nat);
        if !in_block(shapes, idx, n - 1) {
            assert(r.push(shapes[n - 1]).drop_last() =~= r);
        }
    }
}

/// The state after `delete_selected`.
pub open spec fn selection_deleted(v: AppStateView) -> AppStateView {
    if v.current.selected.len() == 0 {
        v
    } else {
        let p = v.pushed();
        let s = p.current;
        p.with_current(
            without_empty_layers(
                SnapshotView {
                    shapes: unselected_shapes(s.shapes, s.selected, s.shapes.len()),
                    selected: Seq::empty(),
                    ..s
                },
            ),
        )
    }
}

// ---- pattern fill ----------------------------------------------------------

/// Some layer has colour `c`.
pub open spec fn color_used(layers: Seq<LayerView>, c: [u8; 3]) -> bool {
    exists|i: int| 0 <= i < layers.len() && #[trigger] layers[i].color == c
}

/// The first palette colour from position `k` on that no layer uses; when
/// all are used, the palette colour of the next layer's position.
pub open spec fn free_swatch_from(layers: Seq<LayerView>, k: nat) -> [u8; 3]
    decreases 14 - k,
{
    if k >= 14 {
        swatch(layers.len())
    } else if !color_used(layers, SWATCH_COLORS[k as int]) {
        SWATCH_COLORS[k as int]
    } else {
        free_swatch_from(layers, k + 1)
    }
}

/// The layer a pattern fill creates at position `index`.
pub open spec fn pattern_layer(index: nat, color: [u8; 3]) -> LayerView {
    LayerView { name: "Muster"@, ..fresh_layer(layer_name(index), color) }
}

/// The state after a pattern fill produced the outlines `elems` (keys of
/// the caller's outline records): nothing changes without elements;
/// otherwise, in one undo step, a layer "Muster" in the first free palette
/// colour is added, the elements become shapes on it, and they are
/// selected.
pub open spec fn pattern_added(v: AppStateView, elems: Seq<u64>) -> AppStateView {
    if elems.len() == 0 {
        v
    } else {
        let p = v.pushed();
        let c = p.current;
        let lid = c.layers.len() as usize;
        p.with_current(
            SnapshotView {
                layers: c.layers.push(pattern_layer(c.layers.len(), free_swatch_from(c.layers, 0))),
                shapes: c.shapes + elems.map_values(|g: u64| new_shape(lid, g)),
                selected: Seq::new(elems.len(), |k: int| (c.shapes.len() + k) as usize),
                ..c
            },
        )
    }
}

/// The layer of shape `i` (when it exists) takes part in selecting: it is
/// visible and not locked, and a fill helper outline counts only on a
/// filling layer.
pub open spec fn selectable(s: SnapshotView, i: int) -> bool {
    s.shapes[i].layer_id < s.layers.len() ==> {
        let l = s.layers[s.shapes[i].layer_id as int];
        l.visible && !l.locked && !(s.shapes[i].fill_only && !l.mode.spec_is_filled())
    }
}

/// Shapes `0..n` a marquee selects: selectable shapes that lie wholly
/// inside the box (`contained`), or, when `crossing`, touch it
/// (`touches`), in order.
pub open spec fn marquee_picks(
    s: SnapshotView,
    contained: Seq<bool>,
    touches: Seq<bool>,
    crossing: bool,
    n: nat,
) -> Seq<usize>
    decreases n,
{
    if n == 0 {
        Seq::empty()
    } else {
        let rest = marquee_picks(s, contained, touches, crossing, (n - 1) as nat);
        let i = n - 1;
        if selectable(s, i) && (contained[i] || (crossing && touches[i])) {
            rest.push(i as usize)
        } else {
            rest
        }
    }
}

/// Shape `i` can be hit: the caller's outline test hit it and its layer (when
/// it exists) is visible and not locked; a helper outline that only bounds a
/// fill counts only on a filling layer.
pub open spec fn hittable(s: SnapshotView, hits: Seq<bool>, i: int) -> bool {
    &&& hits[i]
    &&& s.shapes[i].layer_id < s.layers.len() ==> {
        let l = s.layers[s.shapes[i].layer_id as int];
        l.visible && !l.locked && !(s.shapes[i].fill_only && !l.mode.spec_is_filled())
    }
}

pub proof fn lemma_unselected_shapes_wf(shapes: Seq<Shape>, selected: Seq<usize>, n: nat, bound: nat)
    requires
        n <= shapes.len(),
        forall|i: int| 0 <= i < shapes.len() ==> #[trigger] shapes[i].layer_id < bound,
    ensures
        forall|i: int|
            0 <= i < unselected_shapes(shapes, selected, n).len() ==> #[trigger] unselected_shapes(
                shapes,
                selected,
                n,
            )[i].layer_id < bound,
        unselected_shapes(shapes, selected, n).len() <= n,
    decreases n,
{
    if n > 0 {
        lemma_unselected_shapes_wf(shapes, selected, (n - 1) as nat, bound);
    }
}

} // verus!

verus! {

/// The state after `discard_last_undo_if_no_change`.
pub open spec fn discarded_if_unchanged(v: AppStateView) -> AppStateView {
    if v.undo.len() > 0 && v.undo.last().layers == v.current.layers && v.undo.last().shapes
        == v.current.shapes && v.undo.last().active_layer == v.current.active_layer {
        AppStateView { undo: v.undo.drop_last(), ..v }
    } else {
        v
    }
}

/// Topmost hittable shape among `0..n` (later shapes lie on top).
pub open spec fn topmost_hit(s: SnapshotView, hits: Seq<bool>, n: nat) -> Option<usize>
    decreases n,
{
    if n == 0 {
        None
    } else if hittable(s, hits, n - 1) {
        Some((n - 1) as usize)
    } else {
        topmost_hit(s, hits, (n - 1) as nat)
    }
}

fn first_non_image(layers: &Vec<Layer>) -> (r: Option<usize>)
    ensures
        match r {
            Some(i) => non_image_position(layer_views(layers@)) == Some(i as int),
            None => non_image_position(layer_views(layers@)) is None,
        },
{
    let ghost lv = layer_views(layers@);
    let mut i: usize = 0;
    while i < layers.len()
        invariant
            i <= layers.len(),
            lv == layer_views(layers@),
            forall|k: int| 0 <= k < i ==> (#[trigger] lv[k].mode is Image),
        decreases layers.len() - i,
    {
        if !matches!(layers[i].mode, LayerMode::Image) {
            proof {
                assert(is_first_non_image(lv, i as int));
                let j = choose|j: int| is_first_non_image(lv, j);
                if j < i {
                    assert(lv[j].mode is Image);
                } else if j > i {
                    assert(lv[i as int].mode is Image);
                }
            }
            return Some(i);
        }
        i = i + 1;
    }
    proof {
        assert(!exists|j: int| is_first_non_image(lv, j)) by {
            if exists|j: int| is_first_non_image(lv, j) {
                let j = choose|j: int| is_first_non_image(lv, j);
                assert(lv[j].mode is Image);
            }
        }
    }
    None
}

pub fn layers_equal(a: &Vec<Layer>, b: &Vec<Layer>) -> (r: bool)
    ensures
        r == (layer_views(a@) == layer_views(b@)),
{
    if a.len() != b.len() {
        assert(layer_views(a@).len() != layer_views(b@).len());
        return false;
    }
    let mut i: usize = 0;
    while i < a.len()
        invariant
            i <= a.len(),
            a.len() == b.len(),
            forall|k: int| 0 <= k < i ==> #[trigger] a@[k]@ == b@[k]@,
        decreases a.len() - i,
    {
        let x = &a[i];
        let y = &b[i];
        let same = x.name == y.name && color_eq(x.color, y.color) && x.visible == y.visible
            && x.enabled == y.enabled && x.active == y.active && x.locked == y.locked && x.mode
            == y.mode && x.air_assist == y.air_assist && x.passes == y.passes && x.bidirectional
            == y.bidirectional && x.laser_params == y.laser_params;
        if !same {
            proof {
                assert(layer_views(a@)[i as int] != layer_views(b@)[i as int]) by {
                    if x@ == y@ {
                        assert(x.color@ == y.color@);
                    }
                }
            }
            return false;
        }
        assert(x.color@ =~= y.color@);
        assert(x.color == y.color);
        i = i + 1;
    }
    assert(layer_views(a@) =~= layer_views(b@));
    true
}

pub fn shapes_equal(a: &Vec<Shape>, b: &Vec<Shape>) -> (r: bool)
    ensures
        r == (a@ == b@),
{
    if a.len() != b.len() {
        return false;
    }
    let mut i: usize = 0;
    while i < a.len()
        invariant
            i <= a.len(),
            a.len() == b.len(),
            forall|k: int| 0 <= k < i ==> a@[k] == b@[k],
        decreases a.len() - i,
    {
        if a[i] != b[i] {
            assert(a@[i as int] != b@[i as int]);
            return false;
        }
        i = i + 1;
    }
    assert(a@ =~= b@);
    true
}

impl AppState {
    /// Every shape points to an existing layer.
    pub fn is_well_formed(&self) -> (r: bool)
        ensures
            r == self@.current.wf(),
    {
        let mut i: usize = 0;
        while i < self.shapes.len()
            invariant
                i <= self.shapes.len(),
                forall|k: int| 0 <= k < i ==> #[trigger] self.shapes@[k].layer_id < self.layers@.len(),
            decreases self.shapes.len() - i,
        {
            if self.shapes[i].layer_id >= self.layers.len() {
                return false;
            }
            i = i + 1;
        }
        true
    }

    /// Drops the last undo point again when the layers, shapes and active layer
    /// did not change after it was recorded.
    pub fn discard_last_undo_if_no_change(&mut self)
        ensures
            final(self)@ == discarded_if_unchanged(old(self)@),
    {
        let n = self.undo_stack.len();
        if n > 0 {
            let same = {
                let last = &self.undo_stack[n - 1];
                layers_equal(&last.layers, &self.layers) && shapes_equal(&last.shapes, &self.shapes)
                    && last.active_layer == self.active_layer
            };
            if same {
                let ghost before = self.undo_stack@;
                self.undo_stack.pop();
                assert(snapshot_views(self.undo_stack@) =~= snapshot_views(before).drop_last());
            }
        }
    }

    /// Index of the layer a newly drawn shape goes to; creates it when needed.
    /// An image layer is never the target unless it carries the pending colour.
    fn layer_for_new_shape(&mut self) -> (r: usize)
        requires
            old(self)@.current.layers.len() < usize::MAX - 1,
        ensures
            final(self)@ == old(self)@.with_current(drawing_layer(old(self)@.current)),
            r == drawing_slot(old(self)@.current),
    {
        if let Some(color) = self.pending_color {
            return self.find_or_create_layer(color);
        }
        if self.active_layer < self.layers.len() && !matches!(
            self.layers[self.active_layer].mode,
            LayerMode::Image,
        ) {
            return self.active_layer;
        }
        match first_non_image(&self.layers) {
            Some(i) => i,
            None => {
                let idx = self.layers.len();
                let l = Layer::new(idx);
                let ghost before = self.layers@;
                self.layers.push(l);
                assert(layer_views(self.layers@) =~= layer_views(before).push(
                    fresh_layer(layer_name(idx as nat), swatch(idx as nat)),
                ));
                idx
            },
        }
    }

    /// Adds a drawn outline as a new shape on the layer of the pending colour
    /// (or the active layer), records an undo point and selects the new shape.
    /// Returns its index.
    pub fn add_shape(&mut self, geo: u64) -> (r: usize)
        requires
            old(self)@.current.layers.len() < usize::MAX - 1,
            old(self)@.current.shapes.len() < usize::MAX,
        ensures
            final(self)@ == shape_added(old(self)@, geo),
            r == old(self)@.current.shapes.len(),
    {
        self.push_undo();
        let layer_id = self.layer_for_new_shape();
        let shape = Shape::new(layer_id, geo);
        self.shapes.push(shape);
        let idx = self.shapes.len() - 1;
        let mut sel: Vec<usize> = Vec::new();
        sel.push(idx);
        self.selected = sel;
        self.pending_color = None;
        assert(self.selected@ =~= seq![idx]);
        idx
    }

    /// Adds several outlines (geometry key, point count) as one undo point and
    /// selects them; outlines with fewer than two points are dropped. Layer as
    /// for `add_shape`. Returns the new indices.
    pub fn add_polylines(&mut self, contours: &Vec<(u64, usize)>) -> (r: Vec<usize>)
        requires
            old(self)@.current.layers.len() < usize::MAX - 1,
            old(self)@.current.shapes.len() + contours@.len() < usize::MAX,
        ensures
            final(self)@ == polylines_added(old(self)@, contours@),
            r@ == (if drawable(contours@).len() == 0 {
                Seq::empty()
            } else {
                final(self)@.current.selected
            }),
    {
        let mut geos: Vec<u64> = Vec::new();
        let mut k: usize = 0;
        while k < contours.len()
            invariant
                k <= contours.len(),
                geos@ == drawable(contours@.subrange(0, k as int)),
                geos@.len() <= k,
            decreases contours.len() - k,
        {
            assert(contours@.subrange(0, k + 1).drop_last() =~= contours@.subrange(0, k as int));
            let (g, count) = contours[k];
            if count >= 2 {
                geos.push(g);
            }
            k = k + 1;
        }
        assert(contours@.subrange(0, contours.len() as int) =~= contours@);
        if geos.len() == 0 {
            return Vec::new();
        }
        self.push_undo();
        let layer_id = self.layer_for_new_shape();
        let ghost base = self.shapes@;
        let ghost pre = *self;
        let mut idxs: Vec<usize> = Vec::new();
        let mut j: usize = 0;
        while j < geos.len()
            invariant
                j <= geos.len(),
                self.layers == pre.layers,
                self.active_layer == pre.active_layer,
                self.selected == pre.selected,
                self.pending_color == pre.pending_color,
                self.dirty == pre.dirty,
                self.undo_stack == pre.undo_stack,
                self.redo_stack == pre.redo_stack,
                base.len() + geos.len() < usize::MAX,
                self.shapes@ =~= base + geos@.subrange(0, j as int).map_values(
                    |g: u64| new_shape(layer_id, g),
                ),
                idxs@ =~= Seq::new(j as nat, |q: int| (base.len() + q) as usize),
            decreases geos.len() - j,
        {
            let idx = self.shapes.len();
            self.shapes.push(Shape::new(layer_id, geos[j]));
            idxs.push(idx);
            j = j + 1;
        }
        assert(geos@.subrange(0, geos.len() as int) =~= geos@);
        self.selected = copy_vec(&idxs);
        self.pending_color = None;
        idxs
    }

    fn color_in_use(&self, c: [u8; 3]) -> (r: bool)
        ensures
            r == color_used(self@.current.layers, c),
    {
        let ghost ls = self@.current.layers;
        let mut i: usize = 0;
        while i < self.layers.len()
            invariant
                ls == self@.current.layers,
                i <= ls.len(),
                forall|k: int| 0 <= k < i ==> #[trigger] ls[k].color != c,
            decreases ls.len() - i,
        {
            if color_eq(self.layers[i].color, c) {
                assert(ls[i as int].color == c);
                return true;
            }
            i = i + 1;
        }
        false
    }

    /// Adds the outlines of a pattern fill (keys of the caller's outline
    /// records) as shapes on a new layer "Muster" in the first palette
    /// colour no layer uses, selected, in one undo step. Without elements
    /// nothing changes.
    pub fn add_pattern_fill(&mut self, elems: &Vec<u64>)
        requires
            old(self)@.current.layers.len() < usize::MAX - 1,
            old(self)@.current.shapes.len() + elems@.len() < usize::MAX,
        ensures
            final(self)@ == pattern_added(old(self)@, elems@),
    {
        if elems.len() == 0 {
            return;
        }
        self.push_undo();
        let ghost c0 = self@.current;
        let mut color = SWATCH_COLORS[self.layers.len() % 14];
        let mut k: usize = 14;
        assert(free_swatch_from(c0.layers, 14) == swatch(c0.layers.len()));
        while k > 0
            invariant
                k <= 14,
                c0 == self@.current,
                color == free_swatch_from(c0.layers, k as nat),
            decreases k,
        {
            let cand = SWATCH_COLORS[k - 1];
            if !self.color_in_use(cand) {
                color = cand;
            }
            k = k - 1;
        }
        let layer_id = self.layers.len();
        let mut layer = Layer::with_color(layer_id, color);
        layer.name = "Muster".to_owned();
        self.layers.push(layer);
        let ghost base = self.shapes@;
        let ghost pre = *self;
        let mut idxs: Vec<usize> = Vec::new();
        let mut j: usize = 0;
        while j < elems.len()
            invariant
                j <= elems.len(),
                self.layers == pre.layers,
                self.active_layer == pre.active_layer,
                self.selected == pre.selected,
                self.pending_color == pre.pending_color,
                self.dirty == pre.dirty,
                self.undo_stack == pre.undo_stack,
                self.redo_stack == pre.redo_stack,
                base.len() + elems@.len() < usize::MAX,
                self.shapes@ =~= base + elems@.subrange(0, j as int).map_values(
                    |g: u64| new_shape(layer_id, g),
                ),
                idxs@ =~= Seq::new(j as nat, |q: int| (base.len() + q) as usize),
            decreases elems.len() - j,
        {
            let idx = self.shapes.len();
            self.shapes.push(Shape::new(layer_id, elems[j]));
            idxs.push(idx);
            j = j + 1;
        }
        assert(elems@.subrange(0, elems.len() as int) =~= elems@);
        self.selected = idxs;
        proof {
            assert(layer_views(self.layers@) =~= c0.layers.push(
                pattern_layer(c0.layers.len(), free_swatch_from(c0.layers, 0)),
            ));
        }
    }

    /// Number of image layers (the seed of the next image layer colour).
    pub fn image_layer_count(&self) -> (r: u32)
        requires
            self@.current.layers.len() < u32::MAX,
        ensures
            r == image_layer_count(self@.current.layers),
    {
        let mut count: u32 = 0;
        let mut i: usize = 0;
        while i < self.layers.len()
            invariant
                i <= self.layers.len(),
                self.layers@.len() < u32::MAX,
                count == image_layer_count(layer_views(self.layers@).subrange(0, i as int)),
                count <= i,
            decreases self.layers.len() - i,
        {
            assert(layer_views(self.layers@).subrange(0, i + 1).drop_last() =~= layer_views(
                self.layers@,
            ).subrange(0, i as int));
            if matches!(self.layers[i].mode, LayerMode::Image) {
                count = count + 1;
            }
            i = i + 1;
        }
        assert(layer_views(self.layers@).subrange(0, self.layers.len() as int) =~= layer_views(
            self.layers@,
        ));
        count
    }

    /// Inserts an imported image: always on a layer of its own in image mode
    /// with the given palette-free colour (computed by the caller from the
    /// number of image layers), selected and active. Returns the shape index.
    pub fn add_image(&mut self, geo: u64, color: [u8; 3]) -> (r: usize)
        requires
            old(self)@.current.layers.len() < u32::MAX - 1,
            old(self)@.current.shapes.len() < usize::MAX,
        ensures
            final(self)@ == image_added(old(self)@, geo, color),
            r == old(self)@.current.shapes.len(),
    {
        self.push_undo();
        let seed = self.image_layer_count();
        proof {
            lemma_image_layer_count_bound(old(self)@.current.layers);
        }
        let layer_id = self.layers.len();
        let mut layer = Layer::with_color(layer_id, color);
        layer.mode = LayerMode::Image;
        layer.name = numbered_name("Bild ", seed as u64 + 1);
        let ghost before = self.layers@;
        self.layers.push(layer);
        assert(layer_views(self.layers@) =~= layer_views(before).push(
            image_layer(layer_id as nat, seed as nat, color),
        ));
        self.shapes.push(Shape::new(layer_id, geo));
        let idx = self.shapes.len() - 1;
        let mut sel: Vec<usize> = Vec::new();
        sel.push(idx);
        self.selected = sel;
        self.active_layer = layer_id;
        self.pending_color = None;
        assert(self.selected@ =~= seq![idx]);
        idx
    }

    /// Replaces the outline key of shape `idx` (after the caller moved or
    /// reshaped it); no undo point, marks the state as changed. Invalid
    /// indices only mark the state.
    pub fn set_geometry(&mut self, idx: usize, geo: u64)
        ensures
            final(self)@ == (if idx < old(self)@.current.shapes.len() {
                old(self)@.with_current(
                    SnapshotView {
                        shapes: old(self)@.current.shapes.update(
                            idx as int,
                            Shape { geo, ..old(self)@.current.shapes[idx as int] },
                        ),
                        ..old(self)@.current
                    },
                ).touched()
            } else {
                old(self)@.touched()
            }),
    {
        if idx < self.shapes.len() {
            let mut sh = self.shapes[idx];
            sh.geo = geo;
            self.shapes.set(idx, sh);
        }
        self.dirty = true;
    }

    /// Topmost shape whose outline the caller found hit (`hits[i]` for shape
    /// `i`), skipping shapes on invisible or locked layers and fill helper
    /// outlines on layers that do not fill.
    pub fn hit_test(&self, hits: &Vec<bool>) -> (r: Option<usize>)
        requires
            hits@.len() == self@.current.shapes.len(),
        ensures
            r == topmost_hit(self@.current, hits@, self@.current.shapes.len()),
    {
        let ghost s = self@.current;
        let mut i: usize = self.shapes.len();
        while i > 0
            invariant
                i <= self.shapes.len(),
                s == self@.current,
                hits@.len() == s.shapes.len(),
                topmost_hit(s, hits@, s.shapes.len()) == topmost_hit(s, hits@, i as nat),
            decreases i,
        {
            let k = i - 1;
            let sh = &self.shapes[k];
            let visible = if sh.layer_id < self.layers.len() {
                let l = &self.layers[sh.layer_id];
                l.visible && !l.locked && !(sh.fill_only && !l.mode.is_filled())
            } else {
                true
            };
            if hits[k] && visible {
                return Some(k);
            }
            i = k;
        }
        None
    }

    /// Marquee selection: `contained[i]` and `touches[i]` tell whether the
    /// box of shape `i` lies wholly inside the marquee or touches it (tested
    /// by the caller). Dragged right to left (`crossing` false) only
    /// enclosed shapes are selected, left to right also touching ones;
    /// shapes on invisible or locked layers are skipped. The selection is
    /// replaced.
    pub fn select_in_rect(&mut self, contained: &Vec<bool>, touches: &Vec<bool>, crossing: bool)
        requires
            contained@.len() == old(self)@.current.shapes.len(),
            touches@.len() == old(self)@.current.shapes.len(),
        ensures
            final(self)@ == old(self)@.with_current(
                SnapshotView {
                    selected: marquee_picks(
                        old(self)@.current,
                        contained@,
                        touches@,
                        crossing,
                        old(self)@.current.shapes.len(),
                    ),
                    ..old(self)@.current
                },
            ),
    {
        let ghost s = self@.current;
        let mut picked: Vec<usize> = Vec::new();
        let mut i: usize = 0;
        while i < self.shapes.len()
            invariant
                s == self@.current,
                i <= s.shapes.len(),
                contained@.len() == s.shapes.len(),
                touches@.len() == s.shapes.len(),
                picked@ == marquee_picks(s, contained@, touches@, crossing, i as nat),
            decreases s.shapes.len() - i,
        {
            let sh = &self.shapes[i];
            let open = if sh.layer_id < self.layers.len() {
                let l = &self.layers[sh.layer_id];
                l.visible && !l.locked && !(sh.fill_only && !l.mode.is_filled())
            } else {
                true
            };
            if open && (contained[i] || (crossing && touches[i])) {
                picked.push(i);
            }
            i = i + 1;
        }
        self.selected = picked;
    }

    /// Widens the selection to whole groups: when one member of a group is
    /// selected, all members are. Call after every change of the selection so
    /// that a group behaves as a unit.
    pub fn expand_selection_to_groups(&mut self)
        ensures
            final(self)@ == old(self)@.with_current(expanded_to_groups(old(self)@.current)),
    {
        let ghost s = self@.current;
        let mut joiners: Vec<usize> = Vec::new();
        let mut i: usize = 0;
        while i < self.shapes.len()
            invariant
                s == self@.current,
                i <= s.shapes.len(),
                joiners@ == group_joiners(s, i as nat),
            decreases s.shapes.len() - i,
        {
            if let Some(g) = self.shapes[i].group_id {
                if self.group_selected_exec(g) && !contains_index(&self.selected, i) {
                    joiners.push(i);
                }
            }
            i = i + 1;
        }
        let mut j: usize = 0;
        let ghost base = self.selected@;
        let ghost pre = *self;
        while j < joiners.len()
            invariant
                j <= joiners.len(),
                self.layers == pre.layers,
                self.active_layer == pre.active_layer,
                self.shapes == pre.shapes,
                self.pending_color == pre.pending_color,
                self.dirty == pre.dirty,
                self.undo_stack == pre.undo_stack,
                self.redo_stack == pre.redo_stack,
                self.selected@ =~= base + joiners@.subrange(0, j as int),
            decreases joiners.len() - j,
        {
            self.selected.push(joiners[j]);
            j = j + 1;
        }
        assert(joiners@.subrange(0, joiners.len() as int) =~= joiners@);
    }

    fn group_selected_exec(&self, g: u32) -> (r: bool)
        ensures
            r == selected_group(self@.current, g),
    {
        let ghost s = self@.current;
        let mut k: usize = 0;
        while k < self.selected.len()
            invariant
                s == self@.current,
                k <= s.selected.len(),
                forall|q: int|
                    0 <= q < k ==> !(s.selected[q] < s.shapes.len() && #[trigger] s.shapes[s.selected[q] as int].group_id
                        == Some(g)),
            decreases s.selected.len() - k,
        {
            let idx = self.selected[k];
            if idx < self.shapes.len() {
                if self.shapes[idx].group_id == Some(g) {
                    assert(s.shapes[s.selected[k as int] as int].group_id == Some(g));
                    return true;
                }
            }
            k = k + 1;
        }
        false
    }

    /// Groups the selection (one undo point): all selected shapes receive the
    /// same new group id; existing groups merge into it.
    pub fn group_selected(&mut self)
        requires
            old(self)@.current.selected.len() >= 2 ==> max_group(old(self)@.current.shapes) < u32::MAX,
        ensures
            final(self)@ == grouped(old(self)@),
    {
        if self.selected.len() < 2 {
            return;
        }
        self.push_undo();
        self.group_marked();
        self.dirty = true;
    }

    /// Joins the selected shapes under a fresh group id (no undo point).
    fn group_marked(&mut self)
        requires
            max_group(old(self)@.current.shapes) < u32::MAX,
        ensures
            final(self)@ == old(self)@.with_current(group_selection(old(self)@.current)),
    {
        let ghost s = self@.current;
        let mut max: u32 = 0;
        let mut i: usize = 0;
        while i < self.shapes.len()
            invariant
                s == self@.current,
                i <= s.shapes.len(),
                max == max_group(s.shapes.subrange(0, i as int)),
            decreases s.shapes.len() - i,
        {
            assert(s.shapes.subrange(0, i + 1).drop_last() =~= s.shapes.subrange(0, i as int));
            if let Some(g) = self.shapes[i].group_id {
                if g > max {
                    max = g;
                }
            }
            i = i + 1;
        }
        assert(s.shapes.subrange(0, s.shapes.len() as int) =~= s.shapes);
        let next = max + 1;
        let mut new_shapes: Vec<Shape> = Vec::new();
        let mut m: usize = 0;
        while m < self.shapes.len()
            invariant
                s == self@.current,
                m <= s.shapes.len(),
                new_shapes@.len() == m,
                forall|q: int|
                    0 <= q < m ==> #[trigger] new_shapes@[q] == if s.selected.contains(q as usize) {
                        Shape { group_id: Some(next), ..s.shapes[q] }
                    } else {
                        s.shapes[q]
                    },
            decreases s.shapes.len() - m,
        {
            let mut sh = self.shapes[m];
            if contains_index(&self.selected, m) {
                sh.group_id = Some(next);
            }
            new_shapes.push(sh);
            m = m + 1;
        }
        self.shapes = new_shapes;
        assert(self.shapes@ =~= group_selection(s).shapes);
    }

    /// Adds a text block: its outline contours (each an outline key and its
    /// number of points) become shapes that form one group, in one undo step.
    /// The text source is kept with the first shape's outline record by the
    /// caller. Returns the new shape indices.
    pub fn add_text_block(&mut self, contours: &Vec<(u64, usize)>) -> (r: Vec<usize>)
        requires
            old(self)@.current.layers.len() < usize::MAX - 1,
            old(self)@.current.shapes.len() + contours@.len() < usize::MAX,
            max_group(old(self)@.current.shapes) < u32::MAX - 1,
        ensures
            final(self)@ == text_block_added(old(self)@, contours@),
            r@ == (if drawable(contours@).len() == 0 {
                Seq::empty()
            } else {
                final(self)@.current.selected
            }),
    {
        let idxs = self.add_polylines(contours);
        if idxs.len() == 0 {
            return idxs;
        }
        proof {
            lemma_max_group_extends(old(self)@, contours@);
        }
        self.group_marked();
        idxs
    }

    fn selection_has_group_exec(&self) -> (r: bool)
        ensures
            r == selection_has_group(self@.current),
    {
        let ghost s = self@.current;
        let mut k: usize = 0;
        while k < self.selected.len()
            invariant
                s == self@.current,
                k <= s.selected.len(),
                forall|q: int|
                    0 <= q < k ==> !(s.selected[q] < s.shapes.len() && (#[trigger] s.shapes[s.selected[q] as int].group_id) is Some),
            decreases s.selected.len() - k,
        {
            let idx = self.selected[k];
            if idx < self.shapes.len() && self.shapes[idx].group_id.is_some() {
                assert(s.shapes[s.selected[k as int] as int].group_id is Some);
                return true;
            }
            k = k + 1;
        }
        false
    }

    /// Dissolves the grouping of the selection (one undo point).
    pub fn ungroup_selected(&mut self)
        ensures
            final(self)@ == ungrouped(old(self)@),
    {
        if !self.selection_has_group_exec() {
            return;
        }
        self.push_undo();
        let ghost s = self@.current;
        let mut new_shapes: Vec<Shape> = Vec::new();
        let mut m: usize = 0;
        while m < self.shapes.len()
            invariant
                s == self@.current,
                m <= s.shapes.len(),
                new_shapes@.len() == m,
                forall|q: int|
                    0 <= q < m ==> #[trigger] new_shapes@[q] == if s.selected.contains(q as usize) {
                        Shape { group_id: None, ..s.shapes[q] }
                    } else {
                        s.shapes[q]
                    },
            decreases s.shapes.len() - m,
        {
            let mut sh = self.shapes[m];
            if contains_index(&self.selected, m) {
                sh.group_id = None;
            }
            new_shapes.push(sh);
            m = m + 1;
        }
        self.shapes = new_shapes;
        self.dirty = true;
        assert(self.shapes@ =~= ungrouped(old(self)@).current.shapes);
    }

    /// Deletes the selected shapes (one undo point) and clears empty layers.
    pub fn delete_selected(&mut self)
        requires
            old(self)@.current.wf(),
        ensures
            final(self)@ == selection_deleted(old(self)@),
    {
        if self.selected.len() == 0 {
            return;
        }
        self.push_undo();
        let ghost s = self@.current;
        let mut kept: Vec<Shape> = Vec::new();
        let mut m: usize = 0;
        while m < self.shapes.len()
            invariant
                s == self@.current,
                m <= s.shapes.len(),
                kept@ == unselected_shapes(s.shapes, s.selected, m as nat),
            decreases s.shapes.len() - m,
        {
            if !contains_index(&self.selected, m) {
                kept.push(self.shapes[m]);
            }
            m = m + 1;
        }
        self.shapes = kept;
        self.selected = Vec::new();
        proof {
            lemma_unselected_shapes_wf(s.shapes, s.selected, s.shapes.len(), s.layers.len());
            assert(self.selected@ =~= Seq::<usize>::empty());
        }
        self.remove_empty_layers();
    }

    /// Replaces the text block of shape `idx` (editing a text by double
    /// click): its shapes are removed, and the new contours (each an outline
    /// key, placed at the old block's anchor by the caller, and its number of
    /// points) appear on the block's layer as one new group and compound fill,
    /// selected. Nothing happens when `idx` is no shape or no contour has a
    /// point. One undo step.
    pub fn replace_text_block(&mut self, idx: usize, contours: &Vec<(u64, usize)>)
        requires
            old(self)@.current.wf(),
            old(self)@.current.shapes.len() + contours@.len() < usize::MAX,
            max_group(old(self)@.current.shapes) < u32::MAX,
            max_fill_group(old(self)@.current.shapes) < u32::MAX,
        ensures
            final(self)@ == text_block_replaced(old(self)@, idx, contours@),
    {
        if idx >= self.shapes.len() {
            return;
        }
        let mut any = false;
        let mut c: usize = 0;
        while c < contours.len()
            invariant
                c <= contours@.len(),
                any ==> has_points(contours@),
                !any ==> forall|k: int| 0 <= k < c ==> #[trigger] contours@[k].1 == 0,
            decreases contours.len() - c,
        {
            if contours[c].1 > 0 {
                any = true;
            }
            c = c + 1;
        }
        if !any {
            return;
        }
        let gid = self.shapes[idx].group_id;
        let lid = self.shapes[idx].layer_id;
        self.push_undo();
        let ghost s = self@.current;
        let mut kept: Vec<Shape> = Vec::new();
        let mut m: usize = 0;
        while m < self.shapes.len()
            invariant
                s == self@.current,
                idx < s.shapes.len(),
                gid == s.shapes[idx as int].group_id,
                m <= s.shapes.len(),
                kept@ == outside_block(s.shapes, idx as int, m as nat),
            decreases s.shapes.len() - m,
        {
            let member = match gid {
                Some(g) => self.shapes[m].group_id == Some(g),
                None => m == idx,
            };
            if !member {
                kept.push(self.shapes[m]);
            }
            m = m + 1;
        }
        proof {
            lemma_outside_block(s.shapes, idx as int, s.shapes.len(), s.layers.len());
            assert(s.shapes.subrange(0, s.shapes.len() as int) =~= s.shapes);
        }
        let ghost rest = kept@;
        let mut gmax: u32 = 0;
        let mut fmax: u32 = 0;
        let mut i: usize = 0;
        while i < kept.len()
            invariant
                rest == kept@,
                i <= rest.len(),
                gmax == max_group(rest.subrange(0, i as int)),
                fmax == max_fill_group(rest.subrange(0, i as int)),
            decreases rest.len() - i,
        {
            assert(rest.subrange(0, i + 1).drop_last() =~= rest.subrange(0, i as int));
            if let Some(g) = kept[i].group_id {
                if g > gmax {
                    gmax = g;
                }
            }
            if let Some(f) = kept[i].fill_group_id {
                if f > fmax {
                    fmax = f;
                }
            }
            i = i + 1;
        }
        assert(rest.subrange(0, rest.len() as int) =~= rest);
        let g = gmax + 1;
        let f = fmax + 1;
        let mut shapes = kept;
        let mut selected: Vec<usize> = Vec::new();
        let mut k: usize = 0;
        while k < contours.len()
            invariant
                k <= contours@.len(),
                rest.len() + contours@.len() < usize::MAX,
                shapes@ == rest + contours@.subrange(0, k as int).map_values(
                    |c: (u64, usize)| block_shape(lid, g, f, c.0),
                ),
                selected@ == Seq::new(k as nat, |q: int| (rest.len() + q) as usize),
            decreases contours.len() - k,
        {
            let ghost before = shapes@;
            selected.push(shapes.len());
            shapes.push(
                Shape {
                    layer_id: lid,
                    geo: contours[k].0,
                    fill_only: false,
                    group_id: Some(g),
                    fill_group_id: Some(f),
                },
            );
            assert(contours@.subrange(0, k + 1).map_values(
                |c: (u64, usize)| block_shape(lid, g, f, c.0),
            ) =~= contours@.subrange(0, k as int).map_values(
                |c: (u64, usize)| block_shape(lid, g, f, c.0),
            ).push(block_shape(lid, g, f, contours@[k as int].0)));
            assert(selected@ =~= Seq::new((k + 1) as nat, |q: int| (rest.len() + q) as usize));
            k = k + 1;
        }
        assert(contours@.subrange(0, contours@.len() as int) =~= contours@);
        self.shapes = shapes;
        self.selected = selected;
        proof {
            assert forall|q: int| 0 <= q < self.shapes@.len() implies #[trigger] self.shapes@[q].layer_id
                < self.layers@.len() by {
                if q >= rest.len() {
                    assert(self.shapes@[q] == block_shape(lid, g, f, contours@[q - rest.len()].0));
                } else {
                    assert(self.shapes@[q] == rest[q]);
                }
            }
        }
        self.remove_empty_layers();
    }

    /// Aligning needs at least two selected shapes.
    pub fn can_align(&self) -> (r: bool)
        ensures
            r == (self@.current.selected.len() >= 2),
    {
        self.selected.len() >= 2
    }

    /// Distributing needs at least three selected shapes.
    pub fn can_distribute(&self) -> (r: bool)
        ensures
            r == (self@.current.selected.len() >= 3),
    {
        self.selected.len() >= 3
    }
}

} // verus!

verus! {

pub proof fn lemma_max_group_bound(shapes: Seq<Shape>)
    ensures
        forall|i: int|
            0 <= i < shapes.len() ==> (#[trigger] shapes[i].group_id matches Some(g) ==> g <= max_group(
                shapes,
            )),
    decreases shapes.len(),
{
    if shapes.len() > 0 {
        lemma_max_group_bound(shapes.drop_last());
        assert forall|i: int| 0 <= i < shapes.len() implies (#[trigger] shapes[i].group_id matches Some(
            g,
        ) ==> g <= max_group(shapes)) by {
            if i < shapes.len() - 1 {
                assert(shapes.drop_last()[i] == shapes[i]);
            }
        }
    }
}

/// Grouping gives all selected shapes one common group id (one above the
/// largest in use) that no other shape carries, and leaves every other shape
/// as it was.
pub proof fn group_selected_forms_one_group(v: AppStateView)
    requires
        v.current.selected.len() >= 2,
        max_group(v.current.shapes) < u32::MAX,
    ensures
        ({
            let r = grouped(v).current;
            let s = v.current;
            let g = (max_group(s.shapes) + 1) as u32;
            &&& r.shapes.len() == s.shapes.len()
            &&& r.layers == s.layers
            &&& forall|i: int|
                0 <= i < s.shapes.len() ==> if s.selected.contains(i as usize) {
                    #[trigger] r.shapes[i].group_id == Some(g)
                } else {
                    r.shapes[i] == s.shapes[i] && r.shapes[i].group_id != Some(g)
                }
        }),
        grouped(v).undo == v.undo.push(v.current),
{
    let s = v.current;
    let r = grouped(v).current;
    let next = (max_group(s.shapes) + 1) as u32;
    lemma_max_group_bound(s.shapes);
    assert forall|i: int| 0 <= i < s.shapes.len() implies if s.selected.contains(i as usize) {
        #[trigger] r.shapes[i].group_id == Some(next)
    } else {
        r.shapes[i] == s.shapes[i] && r.shapes[i].group_id != Some(next)
    } by {
        if !s.selected.contains(i as usize) {
            if s.shapes[i].group_id == Some(next) {
                assert(next <= max_group(s.shapes));
            }
        }
    }
}

pub proof fn lemma_unselected_shapes_origin(shapes: Seq<Shape>, selected: Seq<usize>, n: nat, k: int)
    requires
        n <= shapes.len(),
        0 <= k < unselected_shapes(shapes, selected, n).len(),
    ensures
        exists|i: int|
            0 <= i < n && !selected.contains(i as usize) && shapes[i] == #[trigger] unselected_shapes(
                shapes,
                selected,
                n,
            )[k],
    decreases n,
{
    if n > 0 {
        let rest = unselected_shapes(shapes, selected, (n - 1) as nat);
        if k < rest.len() {
            lemma_unselected_shapes_origin(shapes, selected, (n - 1) as nat, k);
            let i = choose|i: int|
                0 <= i < n - 1 && !selected.contains(i as usize) && shapes[i] == #[trigger] rest[k];
            assert(0 <= i < n && !selected.contains(i as usize) && shapes[i] == unselected_shapes(
                shapes,
                selected,
                n,
            )[k]);
        } else {
            assert(0 <= n - 1 < n && !selected.contains((n - 1) as usize));
        }
    }
}

/// Deleting the selection removes exactly the selected shapes: each remaining
/// shape is an unselected one and stays on the layer it was on, no layer is
/// left empty, and nothing stays selected.
pub proof fn delete_selected_keeps_the_rest(v: AppStateView)
    requires
        v.current.wf(),
        v.current.selected.len() > 0,
    ensures
        ({
            let r = selection_deleted(v).current;
            let s = v.current;
            let kept = unselected_shapes(s.shapes, s.selected, s.shapes.len());
            &&& r.wf()
            &&& all_layers_used(r)
            &&& r.selected.len() == 0
            &&& r.shapes.len() == kept.len()
            &&& forall|k: int|
                0 <= k < kept.len() ==> #[trigger] r.layers[r.shapes[k].layer_id as int]
                    == s.layers[kept[k].layer_id as int]
            &&& forall|k: int| 0 <= k < kept.len() ==> exists|i: int|
                0 <= i < s.shapes.len() && !s.selected.contains(i as usize) && s.shapes[i]
                    == #[trigger] kept[k]
        }),
        selection_deleted(v).undo == v.undo.push(v.current),
{
    let s = v.current;
    let kept = unselected_shapes(s.shapes, s.selected, s.shapes.len());
    let mid = SnapshotView { shapes: kept, selected: Seq::empty(), ..s };
    lemma_unselected_shapes_wf(s.shapes, s.selected, s.shapes.len(), s.layers.len());
    remove_empty_layers_keeps_assignment(mid);
    assert forall|k: int| 0 <= k < kept.len() implies exists|i: int|
        0 <= i < s.shapes.len() && !s.selected.contains(i as usize) && s.shapes[i] == #[trigger] kept[k] by {
        lemma_unselected_shapes_origin(s.shapes, s.selected, s.shapes.len(), k);
    }
}

} // verus!

verus! {

// ---- arranging and reshaping the selection ---------------------------------
//
// The geometry (boxes, deltas, mirror axes, packing, rounding) is computed by
// the caller in millimetres; it hands over the new outline keys, and these
// operations decide when anything happens and keep selection, layers and
// history straight.

/// Some selected index is a shape.
pub open spec fn selection_has_shape(s: SnapshotView) -> bool {
    exists|k: int| 0 <= k < s.selected.len() && (#[trigger] s.selected[k] as int) < s.shapes.len()
}

/// The shapes after giving the `k`-th selected shape the outline
/// `outlines[k]` (where that is `Some` and the index is a shape), for the
/// first `n` selection entries in order.
pub open spec fn outlines_applied(
    shapes: Seq<Shape>,
    sel: Seq<usize>,
    outlines: Seq<Option<u64>>,
    n: nat,
) -> Seq<Shape>
    decreases n,
{
    if n == 0 {
        shapes
    } else {
        let r = outlines_applied(shapes, sel, outlines, (n - 1) as nat);
        let i = sel[n - 1] as int;
        match outlines[n - 1] {
            Some(g) => if i < r.len() {
                r.update(i, Shape { geo: g, ..r[i] })
            } else {
                r
            },
            None => r,
        }
    }
}

pub open spec fn min_len(a: nat, b: nat) -> nat {
    if a < b {
        a
    } else {
        b
    }
}

/// The state after moving or reshaping the selection in one undo step:
/// `outlines[k]` is the new outline of the `k`-th selected shape.
pub open spec fn repositioned(v: AppStateView, outlines: Seq<Option<u64>>) -> AppStateView {
    let p = v.pushed();
    let s = p.current;
    p.with_current(
        SnapshotView {
            shapes: outlines_applied(
                s.shapes,
                s.selected,
                outlines,
                min_len(s.selected.len(), outlines.len()),
            ),
            ..s
        },
    )
}

/// Some entry of the first `n` outlines is given.
pub open spec fn some_outline(outlines: Seq<Option<u64>>, n: nat) -> bool {
    exists|k: int| 0 <= k < n && k < outlines.len() && #[trigger] outlines[k] is Some
}

proof fn lemma_outlines_applied(shapes: Seq<Shape>, sel: Seq<usize>, outlines: Seq<Option<u64>>, n: nat)
    requires
        n <= sel.len(),
        n <= outlines.len(),
    ensures
        outlines_applied(shapes, sel, outlines, n).len() == shapes.len(),
        forall|i: int|
            0 <= i < shapes.len() ==> (#[trigger] outlines_applied(shapes, sel, outlines, n)[i]).layer_id
                == shapes[i].layer_id,
    decreases n,
{
    if n > 0 {
        lemma_outlines_applied(shapes, sel, outlines, (n - 1) as nat);
    }
}

impl AppState {
    fn has_selected_shape(&self) -> (r: bool)
        ensures
            r == selection_has_shape(self@.current),
    {
        let mut k: usize = 0;
        while k < self.selected.len()
            invariant
                k <= self.selected@.len(),
                forall|q: int| 0 <= q < k ==> (#[trigger] self.selected@[q] as int) >= self.shapes@.len(),
            decreases self.selected.len() - k,
        {
            if self.selected[k] < self.shapes.len() {
                assert((self@.current.selected[k as int] as int) < self@.current.shapes.len());
                return true;
            }
            k = k + 1;
        }
        false
    }

    /// Gives the selected shapes their new outlines in one undo step.
    fn apply_outlines(&mut self, outlines: &Vec<Option<u64>>)
        requires
            old(self)@.current.wf(),
        ensures
            final(self)@ == repositioned(old(self)@, outlines@),
            final(self)@.current.wf(),
    {
        self.push_undo();
        let ghost s = self@.current;
        let n = if self.selected.len() < outlines.len() {
            self.selected.len()
        } else {
            outlines.len()
        };
        let mut k: usize = 0;
        while k < n
            invariant
                n == min_len(s.selected.len(), outlines@.len()),
                k <= n,
                self@ == old(self)@.pushed().with_current(
                    SnapshotView { shapes: outlines_applied(s.shapes, s.selected, outlines@, k as nat), ..s },
                ),
                s == old(self)@.pushed().current,
            decreases n - k,
        {
            let i = self.selected[k];
            match outlines[k] {
                Some(g) => {
                    if i < self.shapes.len() {
                        let mut sh = self.shapes[i];
                        sh.geo = g;
                        self.shapes.set(i, sh);
                    }
                },
                None => {},
            }
            k = k + 1;
            proof {
                assert(self.shapes@ =~= outlines_applied(s.shapes, s.selected, outlines@, k as nat));
            }
        }
        proof {
            lemma_outlines_applied(s.shapes, s.selected, outlines@, n as nat);
        }
    }

    /// Aligns the selection (`outlines[k]`: the `k`-th selected shape moved to
    /// the common edge or centre) in one undo step. Needs two selected shapes
    /// and a box around them.
    pub fn align_selection(&mut self, outlines: &Vec<Option<u64>>)
        requires
            old(self)@.current.wf(),
        ensures
            final(self)@ == if old(self)@.current.selected.len() >= 2 && selection_has_shape(
                old(self)@.current,
            ) {
                repositioned(old(self)@, outlines@)
            } else {
                old(self)@
            },
    {
        if !self.can_align() || !self.has_selected_shape() {
            return;
        }
        self.apply_outlines(outlines);
    }

    /// Whether the selection can be mirrored: some shape is selected.
    pub fn can_mirror(&self) -> (r: bool)
        ensures
            r == (self@.current.selected.len() > 0),
    {
        self.selected.len() > 0
    }

    /// Mirrors the selection about the middle axis of its common box
    /// (`outlines[k]`: the `k`-th selected shape mirrored) in one undo step.
    pub fn mirror_selection(&mut self, outlines: &Vec<Option<u64>>)
        requires
            old(self)@.current.wf(),
        ensures
            final(self)@ == if selection_has_shape(old(self)@.current) {
                repositioned(old(self)@, outlines@)
            } else {
                old(self)@
            },
    {
        if !self.can_mirror() || !self.has_selected_shape() {
            return;
        }
        self.apply_outlines(outlines);
    }

    /// Distributes the selection with equal steps between the start edges
    /// (`outlines[k]`: the `k`-th selected shape at its place; the outermost
    /// ones stay) in one undo step. Needs three selected shapes.
    pub fn distribute_selection(&mut self, outlines: &Vec<Option<u64>>)
        requires
            old(self)@.current.wf(),
            old(self)@.current.selected.len() >= 3 ==> selection_has_shape(old(self)@.current),
        ensures
            final(self)@ == if old(self)@.current.selected.len() >= 3 {
                repositioned(old(self)@, outlines@)
            } else {
                old(self)@
            },
    {
        if !self.can_distribute() {
            return;
        }
        self.apply_outlines(outlines);
    }

    /// Packs the selection onto the bed (`outlines[k]`: the `k`-th selected
    /// shape at its place, `None` where it did not fit) in one undo step.
    /// Needs two selected shapes and one placed.
    pub fn nest_selected(&mut self, outlines: &Vec<Option<u64>>)
        requires
            old(self)@.current.wf(),
        ensures
            final(self)@ == if old(self)@.current.selected.len() >= 2 && some_outline(
                outlines@,
                old(self)@.current.selected.len(),
            ) {
                repositioned(old(self)@, outlines@)
            } else {
                old(self)@
            },
    {
        if self.selected.len() < 2 {
            return;
        }
        let mut any = false;
        let mut k: usize = 0;
        while k < self.selected.len() && k < outlines.len()
            invariant
                k <= self.selected@.len(),
                k <= outlines@.len(),
                any == some_outline(outlines@, k as nat),
            decreases self.selected.len() - k,
        {
            if outlines[k].is_some() {
                any = true;
            }
            k = k + 1;
        }
        if !any {
            assert(!some_outline(outlines@, self.selected@.len())) by {
                if some_outline(outlines@, self.selected@.len()) {
                    let q = choose|q: int| 0 <= q < self.selected@.len() && q < outlines@.len() && #[trigger] outlines@[q] is Some;
                    assert(q < k);
                }
            }
            return;
        }
        assert(some_outline(outlines@, self.selected@.len()));
        self.apply_outlines(outlines);
    }
}


/// Some of the first `n` selection entries is a shape that can be rounded
/// (`eligible[k]`: the `k`-th selected shape is neither an image nor an
/// ellipse).
pub open spec fn some_eligible(s: SnapshotView, eligible: Seq<bool>, n: nat) -> bool {
    exists|k: int|
        0 <= k < n && k < s.selected.len() && k < eligible.len() && (s.selected[k] as int)
            < s.shapes.len() && #[trigger] eligible[k]
}

/// The state after `fillet_shape_corners(idx, geo)`.
pub open spec fn outline_replaced(v: AppStateView, idx: usize, geo: u64) -> AppStateView {
    if idx < v.current.shapes.len() {
        let p = v.pushed();
        p.with_current(
            SnapshotView {
                shapes: p.current.shapes.update(idx as int, Shape { geo, ..p.current.shapes[idx as int] }),
                ..p.current
            },
        )
    } else {
        v
    }
}

impl AppState {
    /// Rounds the corners of the selected shapes in one undo step:
    /// `outlines[k]` is the rounded outline of the `k`-th selected shape
    /// (rotation taken into its points), `None` where it stays. Nothing
    /// happens unless some selected shape can be rounded (`eligible[k]`).
    pub fn fillet_selected(&mut self, eligible: &Vec<bool>, outlines: &Vec<Option<u64>>)
        requires
            old(self)@.current.wf(),
        ensures
            final(self)@ == if some_eligible(
                old(self)@.current,
                eligible@,
                old(self)@.current.selected.len(),
            ) {
                repositioned(old(self)@, outlines@)
            } else {
                old(self)@
            },
    {
        let mut any = false;
        let mut k: usize = 0;
        while k < self.selected.len() && k < eligible.len()
            invariant
                k <= self.selected@.len(),
                k <= eligible@.len(),
                any == some_eligible(self@.current, eligible@, k as nat),
            decreases self.selected.len() - k,
        {
            if self.selected[k] < self.shapes.len() && eligible[k] {
                any = true;
            }
            proof {
                if !any {
                    assert forall|q: int|
                        0 <= q < k + 1 && q < self@.current.selected.len() && q < eligible@.len() && (
                        self@.current.selected[q] as int) < self@.current.shapes.len() implies !#[trigger] eligible@[q] by {
                        if q < k {
                            assert(!some_eligible(self@.current, eligible@, k as nat));
                        }
                    }
                }
            }
            k = k + 1;
        }
        if !any {
            assert(!some_eligible(self@.current, eligible@, self@.current.selected.len())) by {
                if some_eligible(self@.current, eligible@, self@.current.selected.len()) {
                    let q = choose|q: int|
                        0 <= q < self@.current.selected.len() && q < self@.current.selected.len() && q
                            < eligible@.len() && (self@.current.selected[q] as int)
                            < self@.current.shapes.len() && #[trigger] eligible@[q];
                    assert(q < k);
                }
            }
            return;
        }
        assert(some_eligible(self@.current, eligible@, self@.current.selected.len())) by {
            let q = choose|q: int|
                0 <= q < k && q < self@.current.selected.len() && q < eligible@.len() && (
                self@.current.selected[q] as int) < self@.current.shapes.len() && #[trigger] eligible@[q];
        }
        self.apply_outlines(outlines);
    }

    /// Rounds chosen corners of shape `idx`: `geo` is its new outline. One
    /// undo step; nothing happens when `idx` is no shape.
    pub fn fillet_shape_corners(&mut self, idx: usize, geo: u64)
        ensures
            final(self)@ == outline_replaced(old(self)@, idx, geo),
    {
        if idx >= self.shapes.len() {
            return;
        }
        self.push_undo();
        let mut sh = self.shapes[idx];
        sh.geo = geo;
        self.shapes.set(idx, sh);
    }
}


/// Shape `i` can take part in a boolean operation: it exists and has a closed
/// outline of at least three points (`closed[i]`, found by the caller).
pub open spec fn boolean_operand(shapes: Seq<Shape>, closed: Seq<bool>, i: usize) -> bool {
    &&& (i as int) < shapes.len()
    &&& (i as int) < closed.len()
    &&& closed[i as int]
}

/// The selected shapes that take part, in selection order: the first is the
/// subject, the others clip it.
pub open spec fn operands_of(shapes: Seq<Shape>, closed: Seq<bool>, sel: Seq<usize>) -> Seq<usize>
    decreases sel.len(),
{
    if sel.len() == 0 {
        Seq::empty()
    } else {
        let r = operands_of(shapes, closed, sel.drop_last());
        if boolean_operand(shapes, closed, sel.last()) {
            r.push(sel.last())
        } else {
            r
        }
    }
}

/// The state after `boolean_selected(closed, result)`: in one undo step the
/// operands are removed, the result outlines become shapes on the subject's
/// layer and are selected, and layers left empty go away. Nothing happens
/// with fewer than two operands or an empty result.
pub open spec fn boolean_applied(v: AppStateView, closed: Seq<bool>, result: Seq<u64>) -> AppStateView {
    let ops = operands_of(v.current.shapes, closed, v.current.selected);
    if ops.len() < 2 || result.len() == 0 {
        v
    } else {
        let p = v.pushed();
        let s = p.current;
        let lid = s.shapes[ops[0] as int].layer_id;
        let kept = unselected_shapes(s.shapes, ops, s.shapes.len());
        p.with_current(
            without_empty_layers(
                SnapshotView {
                    shapes: kept + result.map_values(|g: u64| new_shape(lid, g)),
                    selected: Seq::new(result.len(), |k: int| (kept.len() + k) as usize),
                    ..s
                },
            ),
        )
    }
}

impl AppState {
    /// The selected shapes that take part in a boolean operation (`closed[i]`:
    /// shape `i` has a closed outline of at least three points), in selection
    /// order.
    pub fn boolean_operands(&self, closed: &Vec<bool>) -> (ops: Vec<usize>)
        ensures
            ops@ == operands_of(self@.current.shapes, closed@, self@.current.selected),
            forall|k: int| 0 <= k < ops@.len() ==> boolean_operand(self@.current.shapes, closed@, #[trigger] ops@[k]),
    {
        let mut ops: Vec<usize> = Vec::new();
        let mut k: usize = 0;
        let ghost sel = self@.current.selected;
        while k < self.selected.len()
            invariant
                sel == self@.current.selected,
                k <= sel.len(),
                ops@ == operands_of(self@.current.shapes, closed@, sel.take(k as int)),
                forall|q: int| 0 <= q < ops@.len() ==> boolean_operand(self@.current.shapes, closed@, #[trigger] ops@[q]),
            decreases sel.len() - k,
        {
            proof {
                assert(sel.take(k + 1).drop_last() =~= sel.take(k as int));
            }
            let i = self.selected[k];
            if i < self.shapes.len() && i < closed.len() && closed[i] {
                ops.push(i);
            }
            k = k + 1;
        }
        assert(sel.take(k as int) =~= sel);
        ops
    }

    /// Whether the selection can be combined: two selected shapes with closed
    /// outlines.
    pub fn can_boolean(&self, closed: &Vec<bool>) -> (r: bool)
        ensures
            r == (operands_of(self@.current.shapes, closed@, self@.current.selected).len() >= 2),
    {
        self.boolean_operands(closed).len() >= 2
    }

    /// Replaces the operands of a boolean operation by its result (`result`:
    /// the outline keys of the closed result contours, holes included). One
    /// undo step.
    pub fn boolean_selected(&mut self, closed: &Vec<bool>, result: &Vec<u64>)
        requires
            old(self)@.current.wf(),
            old(self)@.current.shapes.len() + result@.len() < usize::MAX,
        ensures
            final(self)@ == boolean_applied(old(self)@, closed@, result@),
    {
        let ops = self.boolean_operands(closed);
        if ops.len() < 2 || result.len() == 0 {
            return;
        }
        let lid = self.shapes[ops[0]].layer_id;
        self.push_undo();
        let ghost s = self@.current;
        let mut kept: Vec<Shape> = Vec::new();
        let mut m: usize = 0;
        while m < self.shapes.len()
            invariant
                s == self@.current,
                m <= s.shapes.len(),
                kept@ == unselected_shapes(s.shapes, ops@, m as nat),
            decreases s.shapes.len() - m,
        {
            if !contains_index(&ops, m) {
                kept.push(self.shapes[m]);
            }
            m = m + 1;
        }
        proof {
            lemma_unselected_shapes_wf(s.shapes, ops@, s.shapes.len(), s.layers.len());
        }
        let ghost rest = kept@;
        let mut shapes = kept;
        let mut selected: Vec<usize> = Vec::new();
        let mut k: usize = 0;
        while k < result.len()
            invariant
                k <= result@.len(),
                rest.len() <= s.shapes.len(),
                s.shapes.len() + result@.len() < usize::MAX,
                shapes@ == rest + result@.take(k as int).map_values(|g: u64| new_shape(lid, g)),
                selected@ == Seq::new(k as nat, |q: int| (rest.len() + q) as usize),
            decreases result.len() - k,
        {
            selected.push(shapes.len());
            shapes.push(Shape::new(lid, result[k]));
            assert(result@.take(k + 1).map_values(|g: u64| new_shape(lid, g)) =~= result@.take(
                k as int,
            ).map_values(|g: u64| new_shape(lid, g)).push(new_shape(lid, result@[k as int])));
            assert(selected@ =~= Seq::new((k + 1) as nat, |q: int| (rest.len() + q) as usize));
            k = k + 1;
        }
        assert(result@.take(k as int) =~= result@);
        self.shapes = shapes;
        self.selected = selected;
        proof {
            assert forall|q: int| 0 <= q < self.shapes@.len() implies #[trigger] self.shapes@[q].layer_id
                < self.layers@.len() by {
                if q >= rest.len() {
                    assert(self.shapes@[q] == new_shape(lid, result@[q - rest.len()]));
                } else {
                    assert(self.shapes@[q] == rest[q]);
                }
            }
        }
        self.remove_empty_layers();
    }
}


/// The offset outlines as new shapes: `contours[k]` are the outlines offset
/// from the `k`-th selected shape, each on that shape's layer; for the first
/// `n` selection entries.
pub open spec fn offset_shapes(
    shapes: Seq<Shape>,
    sel: Seq<usize>,
    contours: Seq<Vec<u64>>,
    n: nat,
) -> Seq<Shape>
    decreases n,
{
    if n == 0 {
        Seq::empty()
    } else {
        let r = offset_shapes(shapes, sel, contours, (n - 1) as nat);
        let i = sel[n - 1] as int;
        if i < shapes.len() {
            r + contours[n - 1]@.map_values(|g: u64| new_shape(shapes[i].layer_id, g))
        } else {
            r
        }
    }
}

/// The offset shapes of the whole selection.
pub open spec fn selection_offsets(s: SnapshotView, contours: Seq<Vec<u64>>) -> Seq<Shape> {
    offset_shapes(s.shapes, s.selected, contours, min_len(s.selected.len(), contours.len()))
}

/// The state after `offset_selected(contours)`: the originals stay, the offset
/// outlines are added on their shapes' layers and selected, in one undo step;
/// nothing happens when there is no offset outline.
pub open spec fn offsets_added(v: AppStateView, contours: Seq<Vec<u64>>) -> AppStateView {
    let add = selection_offsets(v.current, contours);
    if add.len() == 0 {
        v
    } else {
        let p = v.pushed();
        let s = p.current;
        p.with_current(
            SnapshotView {
                shapes: s.shapes + add,
                selected: Seq::new(add.len(), |k: int| (s.shapes.len() + k) as usize),
                ..s
            },
        )
    }
}

proof fn lemma_offset_shapes_wf(s: SnapshotView, contours: Seq<Vec<u64>>, n: nat)
    requires
        s.wf(),
        n <= s.selected.len(),
        n <= contours.len(),
    ensures
        forall|q: int|
            0 <= q < offset_shapes(s.shapes, s.selected, contours, n).len() ==> (
            #[trigger] offset_shapes(s.shapes, s.selected, contours, n)[q]).layer_id < s.layers.len(),
    decreases n,
{
    if n > 0 {
        lemma_offset_shapes_wf(s, contours, (n - 1) as nat);
        let r = offset_shapes(s.shapes, s.selected, contours, (n - 1) as nat);
        let i = s.selected[n - 1] as int;
        if i < s.shapes.len() {
            let m = contours[n - 1]@.map_values(|g: u64| new_shape(s.shapes[i].layer_id, g));
            assert forall|q: int| 0 <= q < (r + m).len() implies (#[trigger] (r + m)[q]).layer_id
                < s.layers.len() by {
                if q >= r.len() {
                    assert((r + m)[q] == m[q - r.len()]);
                } else {
                    assert((r + m)[q] == r[q]);
                }
            }
        }
    }
}

impl AppState {
    /// Adds parallel outlines to the selected shapes in one undo step:
    /// `contours[k]` are the outlines offset from the `k`-th selected shape
    /// (none for images or collapsed offsets). The originals stay; the new
    /// shapes lie on their originals' layers and are selected.
    pub fn offset_selected(&mut self, contours: &Vec<Vec<u64>>)
        requires
            old(self)@.current.wf(),
            old(self)@.current.shapes.len() + selection_offsets(old(self)@.current, contours@).len()
                < usize::MAX,
        ensures
            final(self)@ == offsets_added(old(self)@, contours@),
            final(self)@.current.wf(),
    {
        let ghost s0 = self@.current;
        let n = if self.selected.len() < contours.len() {
            self.selected.len()
        } else {
            contours.len()
        };
        let mut add: Vec<Shape> = Vec::new();
        let mut k: usize = 0;
        while k < n
            invariant
                s0 == self@.current,
                n == min_len(s0.selected.len(), contours@.len()),
                k <= n,
                add@ == offset_shapes(s0.shapes, s0.selected, contours@, k as nat),
            decreases n - k,
        {
            let i = self.selected[k];
            if i < self.shapes.len() {
                let lid = self.shapes[i].layer_id;
                let list = &contours[k];
                let ghost base = add@;
                let mut j: usize = 0;
                while j < list.len()
                    invariant
                        j <= list@.len(),
                        add@ == base + list@.take(j as int).map_values(|g: u64| new_shape(lid, g)),
                    decreases list.len() - j,
                {
                    add.push(Shape::new(lid, list[j]));
                    assert(list@.take(j + 1).map_values(|g: u64| new_shape(lid, g)) =~= list@.take(
                        j as int,
                    ).map_values(|g: u64| new_shape(lid, g)).push(new_shape(lid, list@[j as int])));
                    j = j + 1;
                }
                assert(list@.take(j as int) =~= list@);
            }
            k = k + 1;
        }
        if add.len() == 0 {
            return;
        }
        proof {
            lemma_offset_shapes_wf(s0, contours@, n as nat);
        }
        self.push_undo();
        let base = self.shapes.len();
        let mut selected: Vec<usize> = Vec::new();
        let mut q: usize = 0;
        while q < add.len()
            invariant
                q <= add@.len(),
                base == s0.shapes.len(),
                base + add@.len() < usize::MAX,
                self@ == old(self)@.pushed().with_current(
                    SnapshotView { shapes: s0.shapes + add@.take(q as int), ..s0 },
                ),
                selected@ == Seq::new(q as nat, |t: int| (base + t) as usize),
            decreases add.len() - q,
        {
            selected.push(self.shapes.len());
            self.shapes.push(add[q]);
            proof {
                assert(s0.shapes + add@.take(q + 1) =~= (s0.shapes + add@.take(q as int)).push(add@[q as int]));
                assert(self.shapes@ =~= s0.shapes + add@.take(q + 1));
            }
            assert(selected@ =~= Seq::new((q + 1) as nat, |t: int| (base + t) as usize));
            q = q + 1;
        }
        assert(add@.take(q as int) =~= add@);
        self.selected = selected;
        proof {
            assert forall|t: int| 0 <= t < self@.current.shapes.len() implies #[trigger] self@.current.shapes[t].layer_id
                < self@.current.layers.len() by {
                if t >= base {
                    assert(self@.current.shapes[t] == add@[t - base]);
                } else {
                    assert(self@.current.shapes[t] == s0.shapes[t]);
                }
            }
        }
    }
}


/// A piece of a contour cut open by a holding bridge: a polyline on the cut
/// shape's layer and in its group.
pub open spec fn bridge_piece(cut: Shape, geo: u64) -> Shape {
    Shape { layer_id: cut.layer_id, geo, fill_only: false, group_id: cut.group_id, fill_group_id: None }
}

/// Cutting the shapes `n - 1` down to `0` (`pieces[i]`: the pieces of shape
/// `i` where the bridge crosses it): each cut shape is removed and its pieces
/// are appended and added to the selection, at the positions where they were
/// appended.
pub open spec fn bridged(
    shapes: Seq<Shape>,
    sel: Seq<usize>,
    pieces: Seq<Option<Vec<u64>>>,
    n: nat,
) -> (Seq<Shape>, Seq<usize>)
    decreases n,
{
    if n == 0 {
        (shapes, sel)
    } else {
        let i = n - 1;
        match pieces[i] {
            Some(p) => {
                let cut = shapes[i];
                let rest = shapes.remove(i);
                bridged(
                    rest + p@.map_values(|g: u64| bridge_piece(cut, g)),
                    sel + Seq::new(p@.len(), |k: int| (rest.len() + k) as usize),
                    pieces,
                    (n - 1) as nat,
                )
            },
            None => bridged(shapes, sel, pieces, (n - 1) as nat),
        }
    }
}

/// Number of pieces of the first `n` shapes.
pub open spec fn piece_count(pieces: Seq<Option<Vec<u64>>>, n: nat) -> nat
    decreases n,
{
    if n == 0 {
        0
    } else {
        piece_count(pieces, (n - 1) as nat) + match pieces[n - 1] {
            Some(p) => p@.len(),
            None => 0,
        }
    }
}

/// Some of the first `n` shapes is crossed by the bridge.
pub open spec fn any_cut(pieces: Seq<Option<Vec<u64>>>, n: nat) -> bool {
    exists|i: int| 0 <= i < n && #[trigger] pieces[i] is Some
}

/// The state after `bridge_stroke(pieces)`.
pub open spec fn bridge_applied(v: AppStateView, pieces: Seq<Option<Vec<u64>>>) -> AppStateView {
    let n = min_len(v.current.shapes.len(), pieces.len());
    if !any_cut(pieces, n) {
        v
    } else {
        let p = v.pushed();
        let r = bridged(p.current.shapes, Seq::empty(), pieces, n);
        p.with_current(SnapshotView { shapes: r.0, selected: r.1, ..p.current })
    }
}

impl AppState {
    /// A holding bridge across the contours: `pieces[i]` are the pieces of
    /// shape `i` where the bridge line crosses it (`None` where it does not).
    /// In one undo step every crossed shape is replaced by its pieces (on its
    /// layer and in its group), working from the last shape to the first, and
    /// the pieces are selected. `true` when some shape was crossed.
    pub fn bridge_stroke(&mut self, pieces: &Vec<Option<Vec<u64>>>) -> (r: bool)
        requires
            old(self)@.current.wf(),
            old(self)@.current.shapes.len() + piece_count(
                pieces@,
                min_len(old(self)@.current.shapes.len(), pieces@.len()),
            ) < usize::MAX,
        ensures
            r == any_cut(pieces@, min_len(old(self)@.current.shapes.len(), pieces@.len())),
            final(self)@ == bridge_applied(old(self)@, pieces@),
            final(self)@.current.wf(),
    {
        let n = if self.shapes.len() < pieces.len() {
            self.shapes.len()
        } else {
            pieces.len()
        };
        let mut any = false;
        let mut t: usize = 0;
        while t < n
            invariant
                t <= n,
                n <= pieces@.len(),
                any == any_cut(pieces@, t as nat),
            decreases n - t,
        {
            if pieces[t].is_some() {
                any = true;
            }
            t = t + 1;
        }
        if !any {
            return false;
        }
        self.push_undo();
        let ghost s = self@.current;
        let ghost goal = bridged(s.shapes, Seq::empty(), pieces@, n as nat);
        let mut sel: Vec<usize> = Vec::new();
        let mut i: usize = n;
        while i > 0
            invariant
                i <= n,
                n <= pieces@.len(),
                i <= self.shapes@.len(),
                n == min_len(s.shapes.len(), pieces@.len()),
                self@ == old(self)@.pushed().with_current(SnapshotView { shapes: self.shapes@, ..s }),
                s == old(self)@.pushed().current,
                s.wf(),
                forall|q: int| 0 <= q < self.shapes@.len() ==> #[trigger] self.shapes@[q].layer_id < s.layers.len(),
                bridged(self.shapes@, sel@, pieces@, i as nat) == goal,
                self.shapes@.len() + piece_count(pieces@, i as nat) <= s.shapes.len() + piece_count(pieces@, n as nat),
                sel@.len() + piece_count(pieces@, i as nat) <= piece_count(pieces@, n as nat),
                s.shapes.len() + piece_count(pieces@, n as nat) < usize::MAX,
            decreases i,
        {
            i = i - 1;
            match &pieces[i] {
                Some(p) => {
                    let cut = self.shapes.remove(i);
                    let ghost rest = self.shapes@;
                    let ghost sel0 = sel@;
                    let mut j: usize = 0;
                    while j < p.len()
                        invariant
                            j <= p@.len(),
                            self@ == old(self)@.pushed().with_current(SnapshotView { shapes: self.shapes@, ..s }),
                            self.shapes@ == rest + p@.take(j as int).map_values(|g: u64| bridge_piece(cut, g)),
                            sel@ == sel0 + Seq::new(j as nat, |k: int| (rest.len() + k) as usize),
                            rest.len() + p@.len() < usize::MAX,
                            sel0.len() + p@.len() < usize::MAX,
                        decreases p.len() - j,
                    {
                        sel.push(self.shapes.len());
                        self.shapes.push(
                            Shape { layer_id: cut.layer_id, geo: p[j], fill_only: false, group_id: cut.group_id, fill_group_id: None },
                        );
                        proof {
                            assert(p@.take(j + 1).map_values(|g: u64| bridge_piece(cut, g)) =~= p@.take(
                                j as int,
                            ).map_values(|g: u64| bridge_piece(cut, g)).push(bridge_piece(cut, p@[j as int])));
                            assert(sel@ =~= sel0 + Seq::new((j + 1) as nat, |k: int| (rest.len() + k) as usize));
                        }
                        j = j + 1;
                    }
                    proof {
                        assert(p@.take(j as int) =~= p@);
                        let m = p@.map_values(|g: u64| bridge_piece(cut, g));
                        assert forall|q: int| 0 <= q < self.shapes@.len() implies #[trigger] self.shapes@[q].layer_id
                            < s.layers.len() by {
                            if q >= rest.len() {
                                assert(self.shapes@[q] == m[q - rest.len()]);
                            } else {
                                assert(self.shapes@[q] == rest[q]);
                            }
                        }
                    }
                },
                None => {},
            }
        }
        self.selected = sel;
        proof {
            assert(self@.current == SnapshotView { shapes: goal.0, selected: goal.1, ..s });
        }
        true
    }
}


/// A copy of the nesting prototype at another place: outside any group.
pub open spec fn fill_copy(proto: Shape, geo: u64) -> Shape {
    Shape { geo, group_id: None, ..proto }
}

/// The state after `nest_fill_selected(placed)`: in one undo step the first
/// selected shape moves to the first place and a copy of it goes to every
/// further place; the original and the copies are selected. Nothing happens
/// when the first selected index is no shape.
pub open spec fn nest_filled(v: AppStateView, placed: Seq<u64>) -> AppStateView {
    let s = v.current;
    if s.selected.len() == 0 || s.selected[0] as int >= s.shapes.len() {
        v
    } else {
        let first = s.selected[0];
        let proto = s.shapes[first as int];
        let p = v.pushed();
        if placed.len() == 0 {
            p.with_current(SnapshotView { selected: Seq::empty(), ..p.current })
        } else {
            p.with_current(
                SnapshotView {
                    shapes: s.shapes.update(first as int, Shape { geo: placed[0], ..proto })
                        + placed.skip(1).map_values(|g: u64| fill_copy(proto, g)),
                    selected: seq![first] + Seq::new(
                        (placed.len() - 1) as nat,
                        |k: int| (s.shapes.len() + k) as usize,
                    ),
                    ..p.current
                },
            )
        }
    }
}

/// The state after `insert_coasters(geos)`: in one undo step the outlines
/// become shapes on the layer a new drawing goes to, selected; the pending
/// colour is used up.
pub open spec fn coasters_inserted(v: AppStateView, geos: Seq<u64>) -> AppStateView {
    let p = v.pushed();
    let s = drawing_layer(p.current);
    let lid = drawing_slot(p.current);
    p.with_current(
        SnapshotView {
            shapes: s.shapes + geos.map_values(|g: u64| new_shape(lid, g)),
            selected: Seq::new(geos.len(), |k: int| (s.shapes.len() + k) as usize),
            pending_color: None,
            ..s
        },
    )
}

impl AppState {
    /// Fills the bed with copies of the first selected shape: `placed` are
    /// its outlines at the places found (the first for the original itself).
    /// One undo step.
    pub fn nest_fill_selected(&mut self, placed: &Vec<u64>)
        requires
            old(self)@.current.wf(),
            old(self)@.current.shapes.len() + placed@.len() < usize::MAX,
        ensures
            final(self)@ == nest_filled(old(self)@, placed@),
            final(self)@.current.wf(),
    {
        if self.selected.len() == 0 || self.selected[0] >= self.shapes.len() {
            return;
        }
        let first = self.selected[0];
        let proto = self.shapes[first];
        self.push_undo();
        let ghost s = self@.current;
        if placed.len() == 0 {
            self.selected = Vec::new();
            assert(self@.current == SnapshotView { selected: Seq::empty(), ..s });
            return;
        }
        self.shapes.set(first, Shape { geo: placed[0], ..proto });
        let ghost moved = self.shapes@;
        let base = self.shapes.len();
        let mut sel: Vec<usize> = Vec::new();
        sel.push(first);
        let mut k: usize = 1;
        while k < placed.len()
            invariant
                1 <= k <= placed@.len(),
                base == s.shapes.len(),
                base + placed@.len() < usize::MAX,
                moved.len() == base,
                self@ == old(self)@.pushed().with_current(SnapshotView { shapes: self.shapes@, ..s }),
                self.shapes@ == moved + placed@.skip(1).take(k - 1).map_values(|g: u64| fill_copy(proto, g)),
                sel@ == seq![first] + Seq::new((k - 1) as nat, |q: int| (base + q) as usize),
            decreases placed.len() - k,
        {
            sel.push(self.shapes.len());
            self.shapes.push(Shape { geo: placed[k], group_id: None, ..proto });
            proof {
                assert(placed@.skip(1).take(k as int) =~= placed@.skip(1).take(k - 1).push(placed@[k as int]));
                assert(sel@ =~= seq![first] + Seq::new(k as nat, |q: int| (base + q) as usize));
            }
            k = k + 1;
        }
        assert(placed@.skip(1).take(k - 1) =~= placed@.skip(1));
        self.selected = sel;
        proof {
            let m = placed@.skip(1).map_values(|g: u64| fill_copy(proto, g));
            assert forall|q: int| 0 <= q < self.shapes@.len() implies #[trigger] self.shapes@[q].layer_id
                < s.layers.len() by {
                if q >= base {
                    assert(self.shapes@[q] == m[q - base]);
                } else {
                    assert(self.shapes@[q] == moved[q]);
                }
            }
        }
    }

    /// Inserts the coaster template (`geos`: the outlines of the coasters,
    /// placed by the caller) on the layer a new drawing goes to, selected, in
    /// one undo step.
    pub fn insert_coasters(&mut self, geos: &Vec<u64>)
        requires
            old(self)@.current.layers.len() < usize::MAX - 1,
            old(self)@.current.shapes.len() + geos@.len() < usize::MAX,
        ensures
            final(self)@ == coasters_inserted(old(self)@, geos@),
    {
        self.push_undo();
        let lid = self.layer_for_new_shape();
        let ghost s = self@.current;
        let base = self.shapes.len();
        let mut sel: Vec<usize> = Vec::new();
        let mut k: usize = 0;
        while k < geos.len()
            invariant
                k <= geos@.len(),
                base == s.shapes.len(),
                base + geos@.len() < usize::MAX,
                self@ == old(self)@.pushed().with_current(drawing_layer(old(self)@.pushed().current)).with_current(
                    SnapshotView { shapes: self.shapes@, ..s },
                ),
                self.shapes@ == s.shapes + geos@.take(k as int).map_values(|g: u64| new_shape(lid, g)),
                sel@ == Seq::new(k as nat, |q: int| (base + q) as usize),
            decreases geos.len() - k,
        {
            sel.push(self.shapes.len());
            self.shapes.push(Shape::new(lid, geos[k]));
            proof {
                assert(geos@.take(k + 1).map_values(|g: u64| new_shape(lid, g)) =~= geos@.take(
                    k as int,
                ).map_values(|g: u64| new_shape(lid, g)).push(new_shape(lid, geos@[k as int])));
                assert(sel@ =~= Seq::new((k + 1) as nat, |q: int| (base + q) as usize));
            }
            k = k + 1;
        }
        assert(geos@.take(k as int) =~= geos@);
        self.selected = sel;
        self.pending_color = None;
    }
}


proof fn lemma_operands_valid(shapes: Seq<Shape>, closed: Seq<bool>, sel: Seq<usize>)
    ensures
        forall|k: int|
            0 <= k < operands_of(shapes, closed, sel).len() ==> boolean_operand(
                shapes,
                closed,
                #[trigger] operands_of(shapes, closed, sel)[k],
            ),
    decreases sel.len(),
{
    if sel.len() > 0 {
        lemma_operands_valid(shapes, closed, sel.drop_last());
        let r = operands_of(shapes, closed, sel.drop_last());
        let o = operands_of(shapes, closed, sel);
        assert forall|k: int| 0 <= k < o.len() implies boolean_operand(shapes, closed, #[trigger] o[k]) by {
            if k < r.len() {
                assert(o[k] == r[k]);
            }
        }
    }
}

/// A boolean operation replaces its operands by the result: every shape
/// that stays is one that took no part and keeps its layer, the result
/// shapes follow on the subject's layer and are exactly the selection, and
/// no layer is left empty.
pub proof fn boolean_replaces_operands(v: AppStateView, closed: Seq<bool>, result: Seq<u64>)
    requires
        v.current.wf(),
        operands_of(v.current.shapes, closed, v.current.selected).len() >= 2,
        result.len() > 0,
    ensures
        ({
            let s = v.current;
            let r = boolean_applied(v, closed, result).current;
            let ops = operands_of(s.shapes, closed, s.selected);
            let kept = unselected_shapes(s.shapes, ops, s.shapes.len());
            let subject = s.shapes[ops[0] as int];
            &&& r.wf()
            &&& all_layers_used(r)
            &&& r.shapes.len() == kept.len() + result.len()
            &&& r.selected == Seq::new(result.len(), |k: int| (kept.len() + k) as usize)
            &&& forall|k: int|
                0 <= k < kept.len() ==> r.shapes[k].geo == kept[k].geo && #[trigger] r.layers[r.shapes[k].layer_id as int]
                    == s.layers[kept[k].layer_id as int]
            &&& forall|k: int|
                0 <= k < kept.len() ==> exists|i: int|
                    0 <= i < s.shapes.len() && !ops.contains(i as usize) && s.shapes[i] == #[trigger] kept[k]
            &&& forall|k: int|
                kept.len() <= k < r.shapes.len() ==> r.shapes[k].geo == result[k - kept.len()]
                    && #[trigger] r.layers[r.shapes[k].layer_id as int] == s.layers[subject.layer_id as int]
        }),
        boolean_applied(v, closed, result).undo == v.undo.push(v.current),
{
    let s = v.current;
    let ops = operands_of(s.shapes, closed, s.selected);
    lemma_operands_valid(s.shapes, closed, s.selected);
    assert(boolean_operand(s.shapes, closed, ops[0]));
    let lid = s.shapes[ops[0] as int].layer_id;
    let kept = unselected_shapes(s.shapes, ops, s.shapes.len());
    let added = result.map_values(|g: u64| new_shape(lid, g));
    let mid = SnapshotView {
        shapes: kept + added,
        selected: Seq::new(result.len(), |k: int| (kept.len() + k) as usize),
        ..s
    };
    lemma_unselected_shapes_wf(s.shapes, ops, s.shapes.len(), s.layers.len());
    assert(mid.wf()) by {
        assert forall|q: int| 0 <= q < mid.shapes.len() implies #[trigger] mid.shapes[q].layer_id
            < mid.layers.len() by {
            if q >= kept.len() {
                assert(mid.shapes[q] == added[q - kept.len()]);
            } else {
                assert(mid.shapes[q] == kept[q]);
            }
        }
    }
    remove_empty_layers_keeps_assignment(mid);
    let r = without_empty_layers(mid);
    assert forall|k: int|
        0 <= k < kept.len() implies r.shapes[k].geo == kept[k].geo && #[trigger] r.layers[r.shapes[k].layer_id as int]
            == s.layers[kept[k].layer_id as int] by {
        assert(mid.shapes[k] == kept[k]);
    }
    assert forall|k: int| kept.len() <= k < r.shapes.len() implies r.shapes[k].geo == result[k - kept.len()]
        && #[trigger] r.layers[r.shapes[k].layer_id as int] == s.layers[lid as int] by {
        assert(mid.shapes[k] == added[k - kept.len()]);
    }
    assert forall|k: int| 0 <= k < kept.len() implies exists|i: int|
        0 <= i < s.shapes.len() && !ops.contains(i as usize) && s.shapes[i] == #[trigger] kept[k] by {
        lemma_unselected_shapes_origin(s.shapes, ops, s.shapes.len(), k);
    }
}

proof fn lemma_offset_origin(s: SnapshotView, contours: Seq<Vec<u64>>, n: nat, q: int)
    requires
        n <= s.selected.len(),
        n <= contours.len(),
        0 <= q < offset_shapes(s.shapes, s.selected, contours, n).len(),
    ensures
        exists|k: int|
            0 <= k < n && (s.selected[k] as int) < s.shapes.len() && (#[trigger] offset_shapes(
                s.shapes,
                s.selected,
                contours,
                n,
            )[q]) == new_shape(s.shapes[s.selected[k] as int].layer_id, offset_shapes(s.shapes, s.selected, contours, n)[q].geo),
    decreases n,
{
    let r = offset_shapes(s.shapes, s.selected, contours, (n - 1) as nat);
    let i = s.selected[n - 1] as int;
    if q < r.len() {
        lemma_offset_origin(s, contours, (n - 1) as nat, q);
        let k = choose|k: int|
            0 <= k < n - 1 && (s.selected[k] as int) < s.shapes.len() && (#[trigger] r[q]) == new_shape(
                s.shapes[s.selected[k] as int].layer_id,
                r[q].geo,
            );
        if i < s.shapes.len() {
            let m = contours[n - 1]@.map_values(|g: u64| new_shape(s.shapes[i].layer_id, g));
            assert((r + m)[q] == r[q]);
        }
        assert(offset_shapes(s.shapes, s.selected, contours, n)[q] == r[q]);
        assert(0 <= k < n);
    } else {
        let m = contours[n - 1]@.map_values(|g: u64| new_shape(s.shapes[i].layer_id, g));
        assert((r + m)[q] == m[q - r.len()]);
        assert(0 <= n - 1 < n);
    }
}

/// Offsetting keeps the originals: the shapes before stay as they were, and
/// every added outline lies on the layer of a selected original and is
/// selected.
pub proof fn offset_keeps_originals(v: AppStateView, contours: Seq<Vec<u64>>)
    requires
        selection_offsets(v.current, contours).len() > 0,
    ensures
        ({
            let s = v.current;
            let r = offsets_added(v, contours).current;
            let add = selection_offsets(s, contours);
            &&& r.shapes.len() == s.shapes.len() + add.len()
            &&& r.shapes.subrange(0, s.shapes.len() as int) == s.shapes
            &&& r.layers == s.layers
            &&& r.selected == Seq::new(add.len(), |k: int| (s.shapes.len() + k) as usize)
            &&& forall|q: int|
                s.shapes.len() <= q < r.shapes.len() ==> exists|k: int|
                    0 <= k < s.selected.len() && (s.selected[k] as int) < s.shapes.len() && (
                    #[trigger] r.shapes[q]).layer_id == s.shapes[s.selected[k] as int].layer_id
        }),
        offsets_added(v, contours).undo == v.undo.push(v.current),
{
    let s = v.current;
    let r = offsets_added(v, contours).current;
    let add = selection_offsets(s, contours);
    let n = min_len(s.selected.len(), contours.len());
    assert(r.shapes.subrange(0, s.shapes.len() as int) =~= s.shapes);
    assert forall|q: int| s.shapes.len() <= q < r.shapes.len() implies exists|k: int|
        0 <= k < s.selected.len() && (s.selected[k] as int) < s.shapes.len() && (
        #[trigger] r.shapes[q]).layer_id == s.shapes[s.selected[k] as int].layer_id by {
        lemma_offset_origin(s, contours, n, q - s.shapes.len());
        assert(r.shapes[q] == add[q - s.shapes.len()]);
    }
}


// ---- trimming ---------------------------------------------------------------

/// Shape `i` takes part in trimming (as the trimmed outline or as a cutter):
/// its layer exists, is visible and unlocked, and it is neither a fill helper
/// nor an image (`image`, known to the caller).
pub open spec fn trim_part(s: SnapshotView, i: int, image: bool) -> bool {
    &&& 0 <= i < s.shapes.len()
    &&& (s.shapes[i].layer_id as int) < s.layers.len()
    &&& s.layers[s.shapes[i].layer_id as int].visible
    &&& !s.layers[s.shapes[i].layer_id as int].locked
    &&& !s.shapes[i].fill_only
    &&& !image
}

/// The state after trimming shape `target`: the shape is removed, the
/// remaining pieces with at least two points (`pieces`: outline key and
/// point count) follow as copies of it with those outlines, nothing is
/// selected, and the state is marked as changed; with `record` in a new undo
/// step. Nothing happens when `target` is no shape.
pub open spec fn trimmed(v: AppStateView, target: usize, pieces: Seq<(u64, usize)>, record: bool) -> AppStateView {
    if target as int >= v.current.shapes.len() {
        v
    } else {
        let p = if record {
            v.pushed()
        } else {
            v
        };
        let s = p.current;
        let orig = s.shapes[target as int];
        p.with_current(
            SnapshotView {
                shapes: s.shapes.remove(target as int) + drawable(pieces).map_values(
                    |g: u64| Shape { geo: g, ..orig },
                ),
                selected: Seq::empty(),
                ..s
            },
        ).touched()
    }
}

impl AppState {
    /// Whether shape `i` takes part in trimming (`image`: it is an image).
    pub fn can_trim(&self, i: usize, image: bool) -> (r: bool)
        ensures
            r == trim_part(self@.current, i as int, image),
    {
        if image || i >= self.shapes.len() {
            return false;
        }
        let s = self.shapes[i];
        if s.layer_id >= self.layers.len() {
            return false;
        }
        let l = &self.layers[s.layer_id];
        l.visible && !l.locked && !s.fill_only
    }

    fn apply_trim(&mut self, target: usize, pieces: &Vec<(u64, usize)>, record: bool) -> (r: bool)
        requires
            old(self)@.current.wf(),
            old(self)@.current.shapes.len() + pieces@.len() < usize::MAX,
        ensures
            r == (target < old(self)@.current.shapes.len()),
            final(self)@ == trimmed(old(self)@, target, pieces@, record),
            final(self)@.current.wf(),
    {
        if target >= self.shapes.len() {
            return false;
        }
        let orig = self.shapes[target];
        if record {
            self.push_undo();
        }
        let ghost s = self@.current;
        let ghost p = if record { old(self)@.pushed() } else { old(self)@ };
        self.shapes.remove(target);
        let ghost rest = self.shapes@;
        let mut geos: Vec<u64> = Vec::new();
        let mut k: usize = 0;
        while k < pieces.len()
            invariant
                k <= pieces@.len(),
                geos@ == drawable(pieces@.subrange(0, k as int)),
                geos@.len() <= k,
            decreases pieces.len() - k,
        {
            assert(pieces@.subrange(0, k + 1).drop_last() =~= pieces@.subrange(0, k as int));
            let (g, count) = pieces[k];
            if count >= 2 {
                geos.push(g);
            }
            k = k + 1;
        }
        assert(pieces@.subrange(0, pieces.len() as int) =~= pieces@);
        let mut j: usize = 0;
        while j < geos.len()
            invariant
                j <= geos@.len(),
                geos@.len() <= pieces@.len(),
                rest.len() + pieces@.len() < usize::MAX,
                self@ == p.with_current(SnapshotView { shapes: self.shapes@, ..s }),
                self.shapes@ == rest + geos@.take(j as int).map_values(|g: u64| Shape { geo: g, ..orig }),
            decreases geos.len() - j,
        {
            self.shapes.push(Shape { geo: geos[j], ..orig });
            assert(geos@.take(j + 1).map_values(|g: u64| Shape { geo: g, ..orig }) =~= geos@.take(
                j as int,
            ).map_values(|g: u64| Shape { geo: g, ..orig }).push(Shape { geo: geos@[j as int], ..orig }));
            j = j + 1;
        }
        assert(geos@.take(j as int) =~= geos@);
        self.selected = Vec::new();
        self.dirty = true;
        proof {
            assert(self.selected@ =~= Seq::<usize>::empty());
            let m = geos@.map_values(|g: u64| Shape { geo: g, ..orig });
            assert forall|q: int| 0 <= q < self.shapes@.len() implies #[trigger] self.shapes@[q].layer_id
                < s.layers.len() by {
                if q >= rest.len() {
                    assert(self.shapes@[q] == m[q - rest.len()]);
                } else if q < target {
                    assert(self.shapes@[q] == s.shapes[q]);
                } else {
                    assert(self.shapes@[q] == s.shapes[q + 1]);
                }
            }
        }
        true
    }

    /// Trims shape `target` (found by the caller at the click, among the
    /// shapes that take part): it is replaced by its remaining pieces
    /// (`pieces`: outline key and point count; pieces of fewer than two
    /// points are dropped), which keep its layer and group, in one undo step.
    /// `true` when `target` is a shape.
    pub fn trim_at(&mut self, target: usize, pieces: &Vec<(u64, usize)>) -> (r: bool)
        requires
            old(self)@.current.wf(),
            old(self)@.current.shapes.len() + pieces@.len() < usize::MAX,
        ensures
            r == (target < old(self)@.current.shapes.len()),
            final(self)@ == trimmed(old(self)@, target, pieces@, true),
            final(self)@.current.wf(),
    {
        self.apply_trim(target, pieces, true)
    }

    /// As `trim_at`, inside an undo step the caller has already opened.
    pub fn trim_at_in_edit(&mut self, target: usize, pieces: &Vec<(u64, usize)>) -> (r: bool)
        requires
            old(self)@.current.wf(),
            old(self)@.current.shapes.len() + pieces@.len() < usize::MAX,
        ensures
            r == (target < old(self)@.current.shapes.len()),
            final(self)@ == trimmed(old(self)@, target, pieces@, false),
            final(self)@.current.wf(),
    {
        self.apply_trim(target, pieces, false)
    }
}

} // verus!
