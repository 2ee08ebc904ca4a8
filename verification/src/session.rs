//! The running editor session, independent of any user interface: named use
//! cases over the editor state that refuse what cannot be done with a stable
//! error, and the bracket of a direct manipulation (drag, scale, rotate) that
//! makes any number of intermediate states one undo step.

use vstd::prelude::*;

use crate::chars::{push_digits, push_str, string_from_chars, decimal};
use crate::error::{AppError, AppErrorView};
use crate::model::{Layer, LayerMode, LayerView, Shape};
use crate::pattern_fill::Pattern;
use crate::state::{
    contains_index, copy_vec, discarded_if_unchanged, expanded_to_groups, grouped, layer_move_result,
    marquee_picks, max_group, pattern_added, selection_deleted, toggled, topmost_hit, activated, ungrouped, AppState,
    AppStateView,
    SnapshotView,
};

verus! {

/// Which switch of a layer is flipped.
#[derive(Debug, Clone, Copy, PartialEq, Eq, Structural)]
pub enum LayerToggle {
    Visible,
    Enabled,
    Locked,
    AirAssist,
}

/// The parameter set of a layer as the edit dialog hands it over. The
/// numeric laser values (speed, power, minimum power, line step,
/// resolution) are held by the caller under `laser_params`.
#[derive(Debug, Clone)]
pub struct LayerParams {
    pub name: String,
    pub mode: LayerMode,
    pub passes: u32,
    pub air_assist: bool,
    pub bidirectional: bool,
    pub laser_params: u64,
}

impl LayerParams {
    /// The current values of a layer, as a starting point for editing.
    pub fn from_layer(layer: &Layer) -> (p: LayerParams)
        ensures
            p.name@ == layer.name@,
            p.mode == layer.mode,
            p.passes == layer.passes,
            p.air_assist == layer.air_assist,
            p.bidirectional == layer.bidirectional,
            p.laser_params == layer.laser_params,
    {
        LayerParams {
            name: layer.name.clone(),
            mode: layer.mode,
            passes: layer.passes,
            air_assist: layer.air_assist,
            bidirectional: layer.bidirectional,
            laser_params: layer.laser_params,
        }
    }
}

/// What the caller found of the numeric values of a parameter set. A value
/// that is not a finite number counts as failing its check.
#[derive(Debug, Clone, Copy)]
pub struct ParamChecks {
    /// The maximum power lies in 0..=100 %.
    pub power_in_percent: bool,
    /// The minimum power lies in 0..=100 %.
    pub min_power_in_percent: bool,
    /// The minimum power does not exceed the maximum power.
    pub min_power_at_most_max: bool,
    /// The speed is greater than 0.
    pub speed_positive: bool,
    /// The line step is greater than 0.
    pub line_step_positive: bool,
    /// The resolution is greater than 0.
    pub dpi_positive: bool,
}

/// The first rule a parameter set breaks, as code and message; `None` when
/// it keeps them all. An image layer keeps its mode and no other layer
/// becomes one; the line step only counts for fill layers and the resolution
/// only for raster and image layers.
pub open spec fn param_violation(p: LayerParams, c: ParamChecks, current: LayerMode) -> Option<(Seq<char>, Seq<char>)> {
    if current is Image && !(p.mode is Image) {
        Some(("image_layer_mode"@, "Ein Bild-Layer kann nicht in einen Vektor-Layer umgewandelt werden."@))
    } else if !(current is Image) && p.mode is Image {
        Some(("image_layer_mode"@, "Nur ein importiertes Bild kann einen Image-Layer erzeugen."@))
    } else if !c.power_in_percent {
        Some(("power_range"@, "Die maximale Leistung muss zwischen 0 und 100 % liegen."@))
    } else if !c.min_power_in_percent {
        Some(("power_range"@, "Die minimale Leistung muss zwischen 0 und 100 % liegen."@))
    } else if !c.min_power_at_most_max {
        Some(("power_order"@, "Die minimale Leistung darf die maximale Leistung nicht übersteigen."@))
    } else if !c.speed_positive {
        Some(("speed_invalid"@, "Die Geschwindigkeit muss größer als 0 mm/s sein."@))
    } else if p.passes < 1 {
        Some(("passes_invalid"@, "Es muss mindestens ein Durchlauf ausgeführt werden."@))
    } else if p.mode is Fill && !c.line_step_positive {
        Some(("line_step_invalid"@, "Der Zeilenabstand muss größer als 0 mm sein."@))
    } else if (p.mode is Raster || p.mode is Image) && !c.dpi_positive {
        Some(("dpi_invalid"@, "Die DPI müssen größer als 0 sein."@))
    } else {
        None
    }
}

/// The layer after a parameter set was applied to it.
pub open spec fn with_params(l: LayerView, p: LayerParams) -> LayerView {
    LayerView {
        name: p.name@,
        mode: p.mode,
        passes: p.passes,
        air_assist: p.air_assist,
        bidirectional: p.bidirectional,
        laser_params: p.laser_params,
        ..l
    }
}

fn refusal(code: &str, message: &str) -> (e: AppError)
    ensures
        e@ == (AppErrorView { code: code@, message: message@, details: None }),
{
    AppError::new(code, message.to_owned())
}

/// Checks a parameter set against the value limits before anything changes;
/// `current` is the layer's mode so far.
pub fn validate_layer_params(params: &LayerParams, checks: ParamChecks, current: LayerMode) -> (r: Result<(), AppError>)
    ensures
        match param_violation(*params, checks, current) {
            None => r is Ok,
            Some((code, message)) => r is Err && r->Err_0@ == (AppErrorView {
                code,
                message,
                details: None,
            }),
        },
{
    let is_image = matches!(current, LayerMode::Image);
    let to_image = matches!(params.mode, LayerMode::Image);
    if is_image && !to_image {
        return Err(refusal("image_layer_mode", "Ein Bild-Layer kann nicht in einen Vektor-Layer umgewandelt werden."));
    }
    if !is_image && to_image {
        return Err(refusal("image_layer_mode", "Nur ein importiertes Bild kann einen Image-Layer erzeugen."));
    }
    if !checks.power_in_percent {
        return Err(refusal("power_range", "Die maximale Leistung muss zwischen 0 und 100 % liegen."));
    }
    if !checks.min_power_in_percent {
        return Err(refusal("power_range", "Die minimale Leistung muss zwischen 0 und 100 % liegen."));
    }
    if !checks.min_power_at_most_max {
        return Err(refusal("power_order", "Die minimale Leistung darf die maximale Leistung nicht übersteigen."));
    }
    if !checks.speed_positive {
        return Err(refusal("speed_invalid", "Die Geschwindigkeit muss größer als 0 mm/s sein."));
    }
    if params.passes < 1 {
        return Err(refusal("passes_invalid", "Es muss mindestens ein Durchlauf ausgeführt werden."));
    }
    if matches!(params.mode, LayerMode::Fill) && !checks.line_step_positive {
        return Err(refusal("line_step_invalid", "Der Zeilenabstand muss größer als 0 mm sein."));
    }
    if matches!(params.mode, LayerMode::Raster | LayerMode::Image) && !checks.dpi_positive {
        return Err(refusal("dpi_invalid", "Die DPI müssen größer als 0 sein."));
    }
    Ok(())
}

/// What the caller found of the numeric values of a pattern fill. A value
/// that is not a finite number counts as failing its check.
#[derive(Debug, Clone, Copy)]
pub struct PatternChecks {
    /// Both grid gaps are greater than 0.
    pub gaps_positive: bool,
    /// The element size is greater than 0.
    pub size_positive: bool,
    /// The angle is a finite number.
    pub angle_finite: bool,
}

/// The first rule a pattern fill breaks, as code and message; the element
/// size only counts for shape patterns (lines have none).
pub open spec fn pattern_violation(pattern: Pattern, c: PatternChecks) -> Option<(Seq<char>, Seq<char>)> {
    if !c.gaps_positive {
        Some(("pattern_gap"@, "Die Rasterabstände müssen größer als 0 mm sein."@))
    } else if !(pattern is Lines) && !c.size_positive {
        Some(("pattern_size"@, "Die Elementgröße muss größer als 0 mm sein."@))
    } else if !c.angle_finite {
        Some(("pattern_angle"@, "Der Winkel ist ungültig."@))
    } else {
        None
    }
}

/// The running editor session.
pub struct EditorSession {
    state: AppState,
    /// State when the current direct manipulation began.
    edit_start: Option<AppState>,
}

/// Message when an action needs a selection.
pub open spec fn selection_required_message(action: Seq<char>) -> Seq<char> {
    "Für „"@ + action + "“ muss mindestens ein Objekt ausgewählt sein."@
}

/// Message for a layer index that does not exist.
pub open spec fn invalid_layer_message(index: nat) -> Seq<char> {
    "Ebene mit Index "@ + decimal(index) + " wurde nicht gefunden."@
}

fn invalid_layer(index: usize) -> (e: AppError)
    ensures
        e@ == (AppErrorView {
            code: "layer_not_found"@,
            message: invalid_layer_message(index as nat),
            details: None,
        }),
{
    let mut m: Vec<char> = Vec::new();
    push_str(&mut m, "Ebene mit Index ");
    push_digits(&mut m, index as u64, 10);
    push_str(&mut m, " wurde nicht gefunden.");
    AppError::new("layer_not_found", string_from_chars(&m))
}

/// Position of the first `x` in `s`.
pub open spec fn first_position(s: Seq<usize>, x: usize) -> int {
    choose|k: int| 0 <= k < s.len() && s[k] == x && forall|j: int| 0 <= j < k ==> s[j] != x
}

/// The selection after a click that hit `hit`: an additive click toggles the
/// hit shape; a plain click on an unselected shape selects only it and one on
/// a selected shape keeps the selection (so that a multi-selection can be
/// dragged); a plain click on nothing deselects everything.
pub open spec fn clicked_selection(sel: Seq<usize>, hit: Option<usize>, additive: bool) -> Seq<usize> {
    match hit {
        Some(i) => if additive {
            if sel.contains(i) {
                sel.remove(first_position(sel, i))
            } else {
                sel.push(i)
            }
        } else if sel.contains(i) {
            sel
        } else {
            seq![i]
        },
        None => if additive {
            sel
        } else {
            Seq::empty()
        },
    }
}

fn toggled_in(sel: &Vec<usize>, i: usize) -> (r: Vec<usize>)
    ensures
        r@ == (if sel@.contains(i) {
            sel@.remove(first_position(sel@, i))
        } else {
            sel@.push(i)
        }),
{
    let mut k: usize = 0;
    while k < sel.len()
        invariant
            k <= sel@.len(),
            forall|j: int| 0 <= j < k ==> sel@[j] != i,
        decreases sel.len() - k,
    {
        if sel[k] == i {
            let mut r = copy_vec(sel);
            r.remove(k);
            proof {
                let c = first_position(sel@, i);
                assert(sel@.contains(i));
                assert(0 <= c < sel@.len() && sel@[c] == i && forall|j: int| 0 <= j < c ==> sel@[j] != i);
                if c < k {
                } else if k < c {
                    assert(sel@[k as int] == i);
                }
                assert(c == k);
            }
            return r;
        }
        k = k + 1;
    }
    let mut r = copy_vec(sel);
    r.push(i);
    r
}

impl EditorSession {
    /// The editor state.
    pub closed spec fn view_state(&self) -> AppStateView {
        self.state@
    }

    /// The state when the running manipulation began, if one runs.
    pub closed spec fn view_edit(&self) -> Option<AppStateView> {
        match &self.edit_start {
            Some(s) => Some(s@),
            None => None,
        }
    }

    /// A session over a state, with no manipulation running.
    pub fn new(state: AppState) -> (s: EditorSession)
        ensures
            s.view_state() == state@,
            s.view_edit() is None,
    {
        EditorSession { state, edit_start: None }
    }

    pub fn state(&self) -> (r: &AppState)
        ensures
            r@ == self.view_state(),
    {
        &self.state
    }

    /// Puts another state in place (a project was opened) and returns the old
    /// one; a running manipulation is dropped.
    pub fn replace_state(&mut self, state: AppState) -> (old_state: AppState)
        ensures
            old_state@ == old(self).view_state(),
            final(self).view_state() == state@,
            final(self).view_edit() is None,
    {
        self.edit_start = None;
        let mut previous = state;
        std::mem::swap(&mut self.state, &mut previous);
        previous
    }

    /// A click on the canvas: `hits[i]` tells whether the click lies on the
    /// outline of shape `i` (tested by the caller). The topmost hittable shape
    /// is returned; the selection changes as `clicked_selection` says and is
    /// then widened to whole groups.
    pub fn select_at(&mut self, hits: &Vec<bool>, additive: bool) -> (r: Option<usize>)
        requires
            hits@.len() == old(self).view_state().current.shapes.len(),
        ensures
            r == topmost_hit(
                old(self).view_state().current,
                hits@,
                old(self).view_state().current.shapes.len(),
            ),
            final(self).view_edit() == old(self).view_edit(),
            final(self).view_state() == old(self).view_state().with_current(
                expanded_to_groups(
                    SnapshotView {
                        selected: clicked_selection(
                            old(self).view_state().current.selected,
                            r,
                            additive,
                        ),
                        ..old(self).view_state().current
                    },
                ),
            ),
    {
        let hit = self.state.hit_test(hits);
        let ghost s0 = self.state@;
        match hit {
            Some(i) => {
                if additive {
                    let sel = toggled_in(self.state.selection(), i);
                    self.state.set_selected(sel);
                } else if !contains_index(self.state.selection(), i) {
                    let only = vec![i];
                    assert(only@ =~= seq![i]);
                    self.state.set_selected(only);
                }
            },
            None => {
                if !additive {
                    self.state.clear_selection();
                }
            },
        }
        assert(self.state@ == s0.with_current(
            SnapshotView {
                selected: clicked_selection(s0.current.selected, hit, additive),
                ..s0.current
            },
        ));
        self.state.expand_selection_to_groups();
        hit
    }

    /// Selects by marquee (see `AppState::select_in_rect`) and widens the
    /// selection to whole groups.
    pub fn select_rect(&mut self, contained: &Vec<bool>, touches: &Vec<bool>, crossing: bool)
        requires
            contained@.len() == old(self).view_state().current.shapes.len(),
            touches@.len() == old(self).view_state().current.shapes.len(),
        ensures
            final(self).view_edit() == old(self).view_edit(),
            final(self).view_state() == old(self).view_state().with_current(
                expanded_to_groups(
                    SnapshotView {
                        selected: marquee_picks(
                            old(self).view_state().current,
                            contained@,
                            touches@,
                            crossing,
                            old(self).view_state().current.shapes.len(),
                        ),
                        ..old(self).view_state().current
                    },
                ),
            ),
    {
        self.state.select_in_rect(contained, touches, crossing);
        self.state.expand_selection_to_groups();
    }

    pub fn clear_selection(&mut self)
        ensures
            final(self).view_state() == old(self).view_state().with_current(
                SnapshotView { selected: Seq::empty(), ..old(self).view_state().current },
            ),
            final(self).view_edit() == old(self).view_edit(),
    {
        self.state.clear_selection();
    }

    /// Begins a direct manipulation: the first call records the state and
    /// one undo point; further calls while it runs change nothing.
    pub fn begin_edit(&mut self)
        ensures
            old(self).view_edit() is None ==> final(self).view_edit() == Some(old(self).view_state())
                && final(self).view_state() == old(self).view_state().pushed(),
            old(self).view_edit() is Some ==> final(self).view_edit() == old(self).view_edit()
                && final(self).view_state() == old(self).view_state(),
    {
        if self.edit_start.is_none() {
            self.edit_start = Some(self.state.duplicate());
            self.state.push_undo();
        }
    }

    /// Is a direct manipulation running?
    pub fn edit_active(&self) -> (r: bool)
        ensures
            r == self.view_edit() is Some,
    {
        self.edit_start.is_some()
    }

    /// Ends a direct manipulation; when nothing changed, its undo point is
    /// dropped again.
    pub fn commit_edit(&mut self)
        ensures
            final(self).view_edit() is None,
            old(self).view_edit() is Some ==> final(self).view_state() == discarded_if_unchanged(
                old(self).view_state(),
            ),
            old(self).view_edit() is None ==> final(self).view_state() == old(self).view_state(),
    {
        if self.edit_start.take().is_some() {
            self.state.discard_last_undo_if_no_change();
        }
    }

    /// Aborts a direct manipulation: the state returns to where it began
    /// (history included). `false` when none runs.
    pub fn cancel_edit(&mut self) -> (r: bool)
        ensures
            r == old(self).view_edit() is Some,
            final(self).view_edit() is None,
            match old(self).view_edit() {
                Some(start) => final(self).view_state() == start,
                None => final(self).view_state() == old(self).view_state(),
            },
    {
        match self.edit_start.take() {
            None => false,
            Some(start) => {
                self.state = start;
                true
            },
        }
    }

    /// Flips one switch of a layer in one undo step.
    pub fn toggle_layer(&mut self, index: usize, toggle: LayerToggle) -> (r: Result<(), AppError>)
        ensures
            final(self).view_edit() == old(self).view_edit(),
            index >= old(self).view_state().current.layers.len() ==> r is Err && r->Err_0@
                == (AppErrorView {
                code: "layer_not_found"@,
                message: invalid_layer_message(index as nat),
                details: None,
            }) && final(self).view_state() == old(self).view_state(),
            index < old(self).view_state().current.layers.len() ==> r is Ok
                && final(self).view_state() == old(self).view_state().pushed().with_current(
                SnapshotView {
                    layers: old(self).view_state().current.layers.update(
                        index as int,
                        toggled(old(self).view_state().current.layers[index as int], toggle),
                    ),
                    ..old(self).view_state().current
                },
            ),
    {
        if index >= self.state.layer_count() {
            return Err(invalid_layer(index));
        }
        self.state.toggle_layer(index, toggle);
        Ok(())
    }

    /// Sets all parameters of a layer in one undo step. Everything is
    /// checked before anything changes: an unknown layer or a broken rule
    /// leaves the state as it was (no undo point, not marked as changed).
    pub fn set_layer_params(&mut self, index: usize, params: LayerParams, checks: ParamChecks) -> (r: Result<(), AppError>)
        ensures
            final(self).view_edit() == old(self).view_edit(),
            index >= old(self).view_state().current.layers.len() ==> r is Err && r->Err_0@
                == (AppErrorView {
                code: "layer_not_found"@,
                message: invalid_layer_message(index as nat),
                details: None,
            }) && final(self).view_state() == old(self).view_state(),
            index < old(self).view_state().current.layers.len() ==> match param_violation(
                params,
                checks,
                old(self).view_state().current.layers[index as int].mode,
            ) {
                Some((code, message)) => r is Err && r->Err_0@ == (AppErrorView {
                    code,
                    message,
                    details: None,
                }) && final(self).view_state() == old(self).view_state(),
                None => r is Ok && final(self).view_state() == old(self).view_state().pushed().with_current(
                    SnapshotView {
                        layers: old(self).view_state().current.layers.update(
                            index as int,
                            with_params(old(self).view_state().current.layers[index as int], params),
                        ),
                        ..old(self).view_state().current
                    },
                ),
            },
    {
        if index >= self.state.layer_count() {
            return Err(invalid_layer(index));
        }
        let current = self.state.layer(index);
        let mode = current.mode;
        match validate_layer_params(&params, checks, mode) {
            Err(e) => Err(e),
            Ok(()) => {
                let mut l = current.duplicate();
                let ghost p = params;
                l.name = params.name;
                l.mode = params.mode;
                l.passes = params.passes;
                l.air_assist = params.air_assist;
                l.bidirectional = params.bidirectional;
                l.laser_params = params.laser_params;
                assert(l@ == with_params(self.view_state().current.layers[index as int], p));
                self.state.replace_layer(index, l);
                Ok(())
            },
        }
    }

    /// Pattern fill of the selection: `elems` are the outlines the caller
    /// computed inside the selection's closed contours (keys of its outline
    /// records). Refused without a selection, with invalid values, and when
    /// there is nothing to fill (no closed contour); otherwise the elements
    /// go to a new layer in one undo step (see `pattern_added`).
    pub fn pattern_fill(&mut self, pattern: Pattern, checks: PatternChecks, elems: &Vec<u64>) -> (r: Result<(), AppError>)
        requires
            old(self).view_state().current.layers.len() < usize::MAX - 1,
            old(self).view_state().current.shapes.len() + elems@.len() < usize::MAX,
        ensures
            final(self).view_edit() == old(self).view_edit(),
            old(self).view_state().current.selected.len() == 0 ==> r is Err && r->Err_0@ == (AppErrorView {
                code: "selection_required"@,
                message: selection_required_message("Muster-Füllung"@),
                details: None,
            }),
            old(self).view_state().current.selected.len() > 0 ==> match pattern_violation(pattern, checks) {
                Some((code, message)) => r is Err && r->Err_0@ == (AppErrorView { code, message, details: None }),
                None => if elems@.len() == 0 {
                    r is Err && r->Err_0@ == (AppErrorView {
                        code: "pattern_no_closed"@,
                        message: "Die Auswahl enthält keine geschlossene Kontur — nichts zu füllen."@,
                        details: None,
                    })
                } else {
                    r is Ok && final(self).view_state() == pattern_added(old(self).view_state(), elems@)
                },
            },
            r is Err ==> final(self).view_state() == old(self).view_state(),
    {
        if let Err(e) = self.require_selection("Muster-Füllung") {
            return Err(e);
        }
        if !checks.gaps_positive {
            return Err(refusal("pattern_gap", "Die Rasterabstände müssen größer als 0 mm sein."));
        }
        if !matches!(pattern, Pattern::Lines) && !checks.size_positive {
            return Err(refusal("pattern_size", "Die Elementgröße muss größer als 0 mm sein."));
        }
        if !checks.angle_finite {
            return Err(refusal("pattern_angle", "Der Winkel ist ungültig."));
        }
        if elems.len() == 0 {
            return Err(refusal("pattern_no_closed", "Die Auswahl enthält keine geschlossene Kontur — nichts zu füllen."));
        }
        self.state.add_pattern_fill(elems);
        Ok(())
    }

    /// Moves a layer to another position; both positions must exist.
    pub fn move_layer(&mut self, from: usize, to: usize) -> (r: Result<(), AppError>)
        ensures
            final(self).view_edit() == old(self).view_edit(),
            from >= old(self).view_state().current.layers.len() ==> r is Err && r->Err_0@
                == (AppErrorView {
                code: "layer_not_found"@,
                message: invalid_layer_message(from as nat),
                details: None,
            }) && final(self).view_state() == old(self).view_state(),
            from < old(self).view_state().current.layers.len() && to >= old(self).view_state().current.layers.len() ==> r is Err && r->Err_0@ == (AppErrorView {
                code: "layer_not_found"@,
                message: invalid_layer_message(to as nat),
                details: None,
            }) && final(self).view_state() == old(self).view_state(),
            from < old(self).view_state().current.layers.len() && to < old(self).view_state().current.layers.len() ==> r is Ok && final(self).view_state()
                == layer_move_result(old(self).view_state(), from, to),
    {
        let count = self.state.layer_count();
        if from >= count {
            return Err(invalid_layer(from));
        }
        if to >= count {
            return Err(invalid_layer(to));
        }
        self.state.move_layer(from, to);
        Ok(())
    }

    /// Deletes the selected shapes; nothing selected is refused.
    pub fn delete_selected(&mut self) -> (r: Result<(), AppError>)
        requires
            old(self).view_state().current.wf(),
        ensures
            final(self).view_edit() == old(self).view_edit(),
            old(self).view_state().current.selected.len() == 0 ==> r is Err && r->Err_0@
                == (AppErrorView {
                code: "selection_required"@,
                message: "Zum Löschen muss mindestens ein Objekt ausgewählt sein."@,
                details: None,
            }) && final(self).view_state() == old(self).view_state(),
            old(self).view_state().current.selected.len() > 0 ==> r is Ok && final(self).view_state() == selection_deleted(old(self).view_state()),
    {
        if self.state.selected_count() == 0 {
            return Err(
                AppError::new(
                    "selection_required",
                    "Zum Löschen muss mindestens ein Objekt ausgewählt sein.".to_owned(),
                ),
            );
        }
        self.state.delete_selected();
        Ok(())
    }

    /// Groups the selection; fewer than two selected shapes are refused.
    pub fn group(&mut self) -> (r: Result<(), AppError>)
        requires
            old(self).view_state().current.selected.len() >= 2 ==> max_group(
                old(self).view_state().current.shapes,
            ) < u32::MAX,
        ensures
            final(self).view_edit() == old(self).view_edit(),
            old(self).view_state().current.selected.len() < 2 ==> r is Err && r->Err_0@
                == (AppErrorView {
                code: "two_shapes_required"@,
                message: "Zum Gruppieren müssen mindestens zwei Objekte ausgewählt sein."@,
                details: None,
            }) && final(self).view_state() == old(self).view_state(),
            old(self).view_state().current.selected.len() >= 2 ==> r is Ok && final(self).view_state() == grouped(old(self).view_state()),
    {
        if self.state.selected_count() < 2 {
            return Err(
                AppError::new(
                    "two_shapes_required",
                    "Zum Gruppieren müssen mindestens zwei Objekte ausgewählt sein.".to_owned(),
                ),
            );
        }
        self.state.group_selected();
        Ok(())
    }

    pub fn activate_color(&mut self, color: [u8; 3])
        requires
            old(self).view_state().current.wf(),
            old(self).view_state().current.layers.len() < usize::MAX - 1,
        ensures
            final(self).view_state() == activated(old(self).view_state(), color),
            final(self).view_edit() == old(self).view_edit(),
    {
        self.state.activate_color(color);
    }

    /// Refuses an action on the selection when nothing is selected;
    /// `action` names it in the message.
    pub fn require_selection(&self, action: &str) -> (r: Result<(), AppError>)
        ensures
            r is Ok <==> self.view_state().current.selected.len() > 0,
            r is Err ==> r->Err_0@ == (AppErrorView {
                code: "selection_required"@,
                message: selection_required_message(action@),
                details: None,
            }),
    {
        if self.state.selected_count() == 0 {
            let mut m: Vec<char> = Vec::new();
            push_str(&mut m, "Für „");
            push_str(&mut m, action);
            push_str(&mut m, "“ muss mindestens ein Objekt ausgewählt sein.");
            return Err(AppError::new("selection_required", string_from_chars(&m)));
        }
        Ok(())
    }

    /// Dissolves the groups of the selection; nothing selected is refused.
    pub fn ungroup(&mut self) -> (r: Result<(), AppError>)
        ensures
            final(self).view_edit() == old(self).view_edit(),
            r is Ok <==> old(self).view_state().current.selected.len() > 0,
            r is Err ==> r->Err_0@ == (AppErrorView {
                code: "selection_required"@,
                message: selection_required_message("Gruppierung aufheben"@),
                details: None,
            }) && final(self).view_state() == old(self).view_state(),
            r is Ok ==> final(self).view_state() == ungrouped(old(self).view_state()),
    {
        match self.require_selection("Gruppierung aufheben") {
            Err(e) => Err(e),
            Ok(()) => {
                self.state.ungroup_selected();
                Ok(())
            },
        }
    }

    /// Distributing needs three selected shapes; the refusal changes nothing.
    pub fn check_distribute(&self) -> (r: Result<(), AppError>)
        ensures
            r is Ok <==> self.view_state().current.selected.len() >= 3,
            r is Err ==> r->Err_0@ == (AppErrorView {
                code: "three_units_required"@,
                message: "Zum Verteilen müssen mindestens drei Objekte oder Gruppen ausgewählt sein."@,
                details: None,
            }),
    {
        if !self.state.can_distribute() {
            return Err(
                AppError::new(
                    "three_units_required",
                    "Zum Verteilen müssen mindestens drei Objekte oder Gruppen ausgewählt sein.".to_owned(),
                ),
            );
        }
        Ok(())
    }

    /// Packing and boolean operations need two selected shapes; `message`
    /// says which operation was refused.
    pub fn require_two(&self, message: &str) -> (r: Result<(), AppError>)
        ensures
            r is Ok <==> self.view_state().current.selected.len() >= 2,
            r is Err ==> r->Err_0@ == (AppErrorView {
                code: "two_shapes_required"@,
                message: message@,
                details: None,
            }),
    {
        if self.state.selected_count() < 2 {
            return Err(AppError::new("two_shapes_required", message.to_owned()));
        }
        Ok(())
    }

    /// Replaces the outline of shape `idx` during a direct manipulation
    /// (moving, scaling, rotating: the caller computes the new outline). No
    /// undo point of its own; the manipulation's bracket makes one.
    pub fn edit_geometry(&mut self, idx: usize, geo: u64)
        ensures
            final(self).view_edit() == old(self).view_edit(),
            final(self).view_state() == (if idx < old(self).view_state().current.shapes.len() {
                old(self).view_state().with_current(
                    SnapshotView {
                        shapes: old(self).view_state().current.shapes.update(
                            idx as int,
                            Shape { geo, ..old(self).view_state().current.shapes[idx as int] },
                        ),
                        ..old(self).view_state().current
                    },
                ).touched()
            } else {
                old(self).view_state().touched()
            }),
    {
        self.state.set_geometry(idx, geo);
    }

    /// After a successful save the state counts as unchanged.
    pub fn mark_saved(&mut self)
        ensures
            final(self).view_state() == (AppStateView { dirty: false, ..old(self).view_state() }),
            final(self).view_edit() == old(self).view_edit(),
    {
        self.state.mark_saved();
    }

    pub fn undo(&mut self) -> (r: bool)
        ensures
            r == (old(self).view_state().undo.len() > 0),
            final(self).view_state() == old(self).view_state().undone(),
            final(self).view_edit() == old(self).view_edit(),
    {
        self.state.undo()
    }

    pub fn redo(&mut self) -> (r: bool)
        ensures
            r == (old(self).view_state().redo.len() > 0),
            final(self).view_state() == old(self).view_state().redone(),
            final(self).view_edit() == old(self).view_edit(),
    {
        self.state.redo()
    }
}

/// A direct manipulation is one undo step: after beginning it at `s0`,
/// changing the current state to `c` any number of times and committing,
/// one undo brings back the state of `s0` when something changed; when
/// nothing changed, no undo point is left behind.
pub proof fn manipulation_is_one_undo_step(s0: AppStateView, c: SnapshotView)
    ensures
        ({
            let committed = discarded_if_unchanged(s0.pushed().with_current(c));
            &&& (c.layers != s0.current.layers || c.shapes != s0.current.shapes || c.active_layer
                != s0.current.active_layer) ==> committed.undone().current == s0.current
                && committed.undone().undo == s0.undo
            &&& (c.layers == s0.current.layers && c.shapes == s0.current.shapes && c.active_layer
                == s0.current.active_layer) ==> committed.undo == s0.undo
        }),
{
    assert(s0.undo.push(s0.current).drop_last() =~= s0.undo);
}

} // verus!
