use luxifer::model::LayerMode;
use luxifer::pattern_fill::Pattern;
use luxifer::session::{EditorSession, LayerParams, LayerToggle, ParamChecks, PatternChecks};
use luxifer::state::AppState;

#[test]
fn session_toggle_layer_kippt_schalter_und_ist_rueckgaengig_machbar() {
    let mut st = AppState::new();
    st.add_shape(1);
    let mut s = EditorSession::new(st);
    assert!(s.state().layers[0].visible);
    assert!(s.toggle_layer(0, LayerToggle::Visible).is_ok());
    assert!(!s.state().layers[0].visible);
    assert!(s.undo());
    assert!(s.state().layers[0].visible);
    let air = s.state().layers[0].air_assist;
    assert!(s.toggle_layer(0, LayerToggle::AirAssist).is_ok());
    assert_eq!(s.state().layers[0].air_assist, !air);
}

#[test]
fn session_toggle_layer_unbekannter_index_liefert_fehler() {
    let mut s = EditorSession::new(AppState::new());
    let e = s.toggle_layer(3, LayerToggle::Locked).unwrap_err();
    assert_eq!(e.code(), "layer_not_found");
    assert_eq!(e.message(), "Ebene mit Index 3 wurde nicht gefunden.");
}

#[test]
fn session_move_layer_prueft_beide_positionen() {
    let mut st = AppState::new();
    st.add_shape(1);
    let mut s = EditorSession::new(st);
    let e = s.move_layer(0, 7).unwrap_err();
    assert_eq!(e.code(), "layer_not_found");
    assert_eq!(e.message(), "Ebene mit Index 7 wurde nicht gefunden.");
    let e = s.move_layer(12, 0).unwrap_err();
    assert_eq!(e.message(), "Ebene mit Index 12 wurde nicht gefunden.");
    assert!(s.move_layer(0, 0).is_ok());
}

#[test]
fn session_loeschen_ohne_auswahl_wird_abgelehnt() {
    let mut st = AppState::new();
    st.add_shape(1);
    st.clear_selection();
    let mut s = EditorSession::new(st);
    let e = s.delete_selected().unwrap_err();
    assert_eq!(e.code(), "selection_required");
    assert_eq!(s.state().shapes.len(), 1);
}

#[test]
fn session_gruppieren_braucht_zwei_objekte() {
    let mut st = AppState::new();
    st.add_shape(1);
    let mut s = EditorSession::new(st);
    let e = s.group().unwrap_err();
    assert_eq!(e.code(), "two_shapes_required");
    let mut st = AppState::new();
    st.add_shape(1);
    st.add_shape(2);
    st.selected = vec![0, 1];
    let mut s = EditorSession::new(st);
    assert!(s.group().is_ok());
    let g = s.state().shapes[0].group_id;
    assert!(g.is_some());
    assert_eq!(s.state().shapes[1].group_id, g);
}

#[test]
fn session_manipulation_ist_ein_undo_schritt() {
    let mut st = AppState::new();
    st.add_shape(1);
    let mut s = EditorSession::new(st);
    s.begin_edit();
    assert!(s.edit_active());
    s.begin_edit();
    assert!(s.toggle_layer(0, LayerToggle::Locked).is_ok());
    assert!(s.toggle_layer(0, LayerToggle::Enabled).is_ok());
    s.commit_edit();
    assert!(!s.edit_active());
    assert!(s.state().layers[0].locked);
    // two toggles plus the bracket's own point: undo three times back to start
    assert!(s.undo());
    assert!(s.undo());
    assert!(s.undo());
    assert!(!s.state().layers[0].locked);
    assert!(s.state().layers[0].enabled);
}

#[test]
fn session_manipulation_ohne_aenderung_hinterlaesst_keinen_undo_punkt() {
    let mut s = EditorSession::new(AppState::new());
    s.begin_edit();
    s.commit_edit();
    assert!(!s.undo());
}

#[test]
fn session_abbruch_stellt_ausgangszustand_her() {
    let mut st = AppState::new();
    st.add_shape(1);
    let mut s = EditorSession::new(st);
    assert!(!s.cancel_edit());
    s.begin_edit();
    assert!(s.toggle_layer(0, LayerToggle::Visible).is_ok());
    assert!(s.cancel_edit());
    assert!(!s.edit_active());
    assert!(s.state().layers[0].visible);
}

#[test]
fn session_replace_state_gibt_alten_zustand_zurueck() {
    let mut st = AppState::new();
    st.add_shape(5);
    let mut s = EditorSession::new(st);
    s.begin_edit();
    let old = s.replace_state(AppState::new());
    assert_eq!(old.shapes.len(), 1);
    assert_eq!(old.shapes[0].geo, 5);
    assert!(s.state().shapes.is_empty());
    assert!(!s.edit_active());
}

#[test]
fn state_textblock_bildet_eine_gruppe() {
    let mut s = AppState::new();
    let idx = s.add_text_block(&vec![(10, 4), (11, 0), (12, 6)]);
    assert_eq!(idx, vec![0, 1]);
    assert_eq!(s.shapes.len(), 2);
    assert_eq!(s.shapes[0].geo, 10);
    assert_eq!(s.shapes[1].geo, 12);
    let g = s.shapes[0].group_id;
    assert!(g.is_some());
    assert_eq!(s.shapes[1].group_id, g);
    assert_eq!(s.selected, vec![0, 1]);
    assert!(s.undo());
    assert!(s.shapes.is_empty());
}

#[test]
fn state_textblock_ohne_punkte_legt_nichts_an() {
    let mut s = AppState::new();
    let idx = s.add_text_block(&vec![(10, 0)]);
    assert!(idx.is_empty());
    assert!(s.shapes.is_empty());
    assert!(!s.undo());
}

#[test]
fn state_textblock_ersetzen_tauscht_die_gruppe_aus() {
    let mut s = AppState::new();
    s.add_shape(1);
    s.clear_selection();
    s.add_text_block(&vec![(10, 4), (12, 6)]);
    assert_eq!(s.shapes.len(), 3);
    let layer = s.shapes[1].layer_id;
    s.replace_text_block(1, &vec![(20, 3), (21, 3), (22, 3)]);
    assert_eq!(s.shapes.len(), 4);
    assert_eq!(s.shapes[0].geo, 1);
    let geos: Vec<u64> = s.shapes[1..].iter().map(|sh| sh.geo).collect();
    assert_eq!(geos, vec![20, 21, 22]);
    let g = s.shapes[1].group_id;
    let f = s.shapes[1].fill_group_id;
    assert!(g.is_some() && f.is_some());
    for sh in &s.shapes[1..] {
        assert_eq!(sh.group_id, g);
        assert_eq!(sh.fill_group_id, f);
        assert_eq!(sh.layer_id, layer);
    }
    assert_eq!(s.selected, vec![1, 2, 3]);
    assert!(s.undo());
    assert_eq!(s.shapes.len(), 3);
}

#[test]
fn state_textblock_ersetzen_ohne_punkte_oder_index_aendert_nichts() {
    let mut s = AppState::new();
    s.add_text_block(&vec![(10, 4)]);
    s.replace_text_block(1, &vec![(20, 3)]);
    assert_eq!(s.shapes.len(), 1);
    s.replace_text_block(0, &vec![(20, 0)]);
    assert_eq!(s.shapes.len(), 1);
    assert_eq!(s.shapes[0].geo, 10);
}

fn session_with_rect() -> EditorSession {
    let mut state = AppState::new();
    state.add_shape(1);
    EditorSession::new(state)
}

fn empty_session() -> EditorSession {
    EditorSession::new(AppState::new())
}

fn check_delete_without_selection() {
    let mut session = empty_session();
    let error = session.delete_selected().unwrap_err();
    assert_eq!(error.code(), "selection_required");
    assert!(session.state().shapes.is_empty());
    assert!(!session.state().dirty);
}

#[test]
fn session_loeschen_ohne_auswahl_liefert_stabilen_fehler_ohne_mutation() {
    check_delete_without_selection();
}

#[test]
fn tests_loeschen_ohne_auswahl_liefert_stabilen_fehler_ohne_mutation() {
    check_delete_without_selection();
}

fn check_delete_undo_redo() {
    let mut session = session_with_rect();
    session.delete_selected().unwrap();
    assert!(session.state().shapes.is_empty());
    assert!(session.state().dirty);
    assert!(session.undo());
    assert_eq!(session.state().shapes.len(), 1);
    assert_eq!(session.state().selected, vec![0]);
    assert!(session.redo());
    assert!(session.state().shapes.is_empty());
    assert!(session.state().selected.is_empty());
}

#[test]
fn session_loeschen_undo_und_redo_bleiben_ein_zusammenhaengender_ablauf() {
    check_delete_undo_redo();
}

#[test]
fn tests_loeschen_undo_und_redo_bleiben_ein_zusammenhaengender_ablauf() {
    check_delete_undo_redo();
}

fn check_undo_redo_without_history() {
    let mut session = empty_session();
    assert!(!session.undo());
    assert!(!session.redo());
    assert!(!session.state().dirty);
}

#[test]
fn session_undo_und_redo_ohne_historie_sind_sichere_no_ops() {
    check_undo_redo_without_history();
}

#[test]
fn tests_undo_und_redo_ohne_historie_sind_sichere_no_ops() {
    check_undo_redo_without_history();
}

fn check_additive_selection() {
    let mut state = AppState::new();
    state.add_shape(1);
    state.add_shape(2);
    state.shapes[0].group_id = Some(1);
    state.shapes[1].group_id = Some(1);
    state.selected.clear();
    let mut session = EditorSession::new(state);
    // the click at (5, 5) lies on the first rectangle only
    let hits = vec![true, false];
    assert_eq!(session.select_at(&hits, false), Some(0));
    assert_eq!(session.state().selected, vec![0, 1]);
    session.select_at(&hits, true);
    // groups stay one indivisible selection
    assert_eq!(session.state().selected.len(), 2);
    assert!(session.state().selected.contains(&0));
    assert!(session.state().selected.contains(&1));
}

#[test]
fn session_additive_auswahl_toggelt_und_erweitert_gruppen() {
    check_additive_selection();
}

#[test]
fn tests_additive_auswahl_toggelt_und_erweitert_gruppen() {
    check_additive_selection();
}

fn check_drag_is_one_undo_step() {
    let mut session = session_with_rect();
    let original = session.state().shapes[0].geo;
    session.begin_edit();
    // two drag updates: the caller moves the outline and hands over its key
    session.edit_geometry(0, 2);
    session.edit_geometry(0, 3);
    session.commit_edit();
    assert_eq!(session.state().shapes[0].geo, 3);
    assert!(session.undo());
    assert_eq!(session.state().shapes[0].geo, original);
    assert!(session.redo());
    assert_eq!(session.state().shapes[0].geo, 3);
}

#[test]
fn session_mehrere_drag_updates_erzeugen_genau_einen_undo_schritt() {
    check_drag_is_one_undo_step();
}

#[test]
fn tests_mehrere_drag_updates_erzeugen_genau_einen_undo_schritt() {
    check_drag_is_one_undo_step();
}

fn check_cancelled_gesture() {
    let mut session = session_with_rect();
    let original = session.state().shapes[0].geo;
    session.begin_edit();
    session.edit_geometry(0, 50);
    assert!(session.cancel_edit());
    assert_eq!(session.state().shapes[0].geo, original);
    assert!(!session.edit_active());
    // the cancelled edit left no undo entry; the remaining one is add_shape's
    assert!(session.undo());
    assert!(session.state().shapes.is_empty());
}

#[test]
fn session_abgebrochene_geste_stellt_zustand_und_historie_wieder_her() {
    check_cancelled_gesture();
}

#[test]
fn tests_abgebrochene_geste_stellt_zustand_und_historie_wieder_her() {
    check_cancelled_gesture();
}

#[test]
fn is_dirty_und_mark_saved_bilden_den_dirty_guard_ab() {
    let mut state = AppState::new();
    assert!(!state.dirty);
    state.add_shape(1);
    let mut session = EditorSession::new(state);
    assert!(session.state().dirty);
    session.mark_saved();
    assert!(!session.state().dirty);
}

#[test]
fn textblock_ersetzen_erzeugt_genau_einen_undo_schritt() {
    let mut state = AppState::new();
    let indices = state.add_text_block(&vec![(100, 3)]);
    state.mark_saved();
    state.replace_text_block(indices[0], &vec![(200, 3)]);
    assert_eq!(state.shapes[0].geo, 200);
    assert!(state.undo());
    assert_eq!(state.shapes[0].geo, 100);
    // the next undo belongs to the original insertion
    assert!(state.undo());
    assert!(state.shapes.is_empty());
}

#[test]
fn auswahloperation_ohne_voraussetzung_mutiert_nicht() {
    let mut session = empty_session();
    let error = session.require_selection("Ausrichten").unwrap_err();
    assert_eq!(error.code(), "selection_required");
    let error = session.ungroup().unwrap_err();
    assert_eq!(error.code(), "selection_required");
    assert!(!session.state().dirty);
    assert!(!session.undo());
}

#[test]
fn layer_schalter_ist_dirty_und_undo_faehig() {
    let mut session = session_with_rect();
    let original = session.state().layers[0].visible;
    session.toggle_layer(0, LayerToggle::Visible).unwrap();
    assert_eq!(session.state().layers[0].visible, !original);
    assert!(session.state().dirty);
    assert!(session.undo());
    assert_eq!(session.state().layers[0].visible, original);
}

#[test]
fn ungueltiger_layerindex_liefert_fehler_ohne_mutation() {
    let mut session = session_with_rect();
    let error = session.toggle_layer(4, LayerToggle::Locked).unwrap_err();
    assert_eq!(error.code(), "layer_not_found");
    assert_eq!(session.state().layers.len(), 1);
}

#[test]
fn layer_verschieben_behaelt_shape_zuordnung_und_ist_undo_faehig() {
    let mut state = AppState::new();
    state.add_shape(1);
    state.clear_selection();
    state.activate_color([0x10, 0xB9, 0x81]);
    state.add_shape(2);
    let mut session = EditorSession::new(state);
    let second_color = session.state().layers[1].color;
    session.move_layer(1, 0).unwrap();
    assert_eq!(session.state().layers[0].color, second_color);
    assert_eq!(session.state().shapes[1].layer_id, 0);
    assert!(session.undo());
    assert_eq!(session.state().layers[1].color, second_color);
    assert_eq!(session.state().shapes[1].layer_id, 1);
}

#[test]
fn session_distribute_and_two_shape_operations_are_refused_without_enough_shapes() {
    let session = session_with_rect();
    let e = session.check_distribute().unwrap_err();
    assert_eq!(e.code(), "three_units_required");
    let e = session
        .require_two("Zum Packen müssen mindestens zwei Objekte ausgewählt sein.")
        .unwrap_err();
    assert_eq!(e.code(), "two_shapes_required");
    assert_eq!(e.message(), "Zum Packen müssen mindestens zwei Objekte ausgewählt sein.");
    assert!(session.require_selection("Spiegeln").is_ok());
}

#[test]
fn session_click_selection_rules() {
    let mut state = AppState::new();
    state.add_shape(1);
    state.add_shape(2);
    state.add_shape(3);
    state.selected = vec![0, 2];
    let mut session = EditorSession::new(state);
    // a plain click on a selected shape keeps the multi-selection
    assert_eq!(session.select_at(&vec![false, false, true], false), Some(2));
    assert_eq!(session.state().selected, vec![0, 2]);
    // the topmost hit shape counts
    assert_eq!(session.select_at(&vec![true, true, false], false), Some(1));
    assert_eq!(session.state().selected, vec![1]);
    // an additive click toggles
    session.select_at(&vec![true, false, false], true);
    assert_eq!(session.state().selected, vec![1, 0]);
    session.select_at(&vec![false, true, false], true);
    assert_eq!(session.state().selected, vec![0]);
    // an additive click on nothing keeps, a plain one clears
    assert_eq!(session.select_at(&vec![false, false, false], true), None);
    assert_eq!(session.state().selected, vec![0]);
    session.select_at(&vec![false, false, false], false);
    assert!(session.state().selected.is_empty());
}

/// Finite and greater than 0 (NaN fails).
fn is_positive(value: f64) -> bool {
    value.is_finite() && value > 0.0
}

/// Finite percentage in 0..=100 (NaN fails).
fn in_percent(value: f64) -> bool {
    value.is_finite() && (0.0..=100.0).contains(&value)
}

struct Values {
    speed_mm_s: f64,
    power_pct: f64,
    min_power_pct: f64,
    line_step_mm: f64,
    dpi: f64,
}

fn valid_values() -> Values {
    Values { speed_mm_s: 120.0, power_pct: 60.0, min_power_pct: 20.0, line_step_mm: 0.2, dpi: 300.0 }
}

fn checks(v: &Values) -> ParamChecks {
    ParamChecks {
        power_in_percent: in_percent(v.power_pct),
        min_power_in_percent: in_percent(v.min_power_pct),
        min_power_at_most_max: !(v.min_power_pct > v.power_pct),
        speed_positive: is_positive(v.speed_mm_s),
        line_step_positive: is_positive(v.line_step_mm),
        dpi_positive: is_positive(v.dpi),
    }
}

fn valid_params() -> LayerParams {
    LayerParams {
        name: "Kontur".to_string(),
        mode: LayerMode::Cut,
        passes: 2,
        air_assist: true,
        bidirectional: false,
        laser_params: 77,
    }
}

fn clean_session_with_rect() -> EditorSession {
    let mut state = AppState::new();
    state.add_shape(1);
    state.mark_saved();
    EditorSession::new(state)
}

fn image_session() -> EditorSession {
    let mut state = AppState::new();
    state.add_shape(1);
    state.layers[0].mode = LayerMode::Image;
    state.mark_saved();
    EditorSession::new(state)
}

#[test]
fn layer_parameter_vollstaendig_setzen_ist_ein_undo_schritt() {
    let mut session = session_with_rect();
    let before_name = session.state().layers[0].name.clone();
    session.set_layer_params(0, valid_params(), checks(&valid_values())).unwrap();
    let l = &session.state().layers[0];
    assert_eq!(l.name, "Kontur");
    assert_eq!(l.laser_params, 77);
    assert_eq!(l.passes, 2);
    assert!(l.air_assist);
    assert!(!l.bidirectional);
    assert!(session.state().dirty);
    assert!(session.undo());
    assert_eq!(session.state().layers[0].name, before_name);
    assert!(session.redo());
    assert_eq!(session.state().layers[0].name, "Kontur");
}

#[test]
fn ungueltige_leistung_ausserhalb_prozentbereich_mutiert_nicht() {
    let mut session = clean_session_with_rect();
    let before = session.state().layers[0].name.clone();
    let mut v = valid_values();
    v.power_pct = 140.0;
    let error = session.set_layer_params(0, valid_params(), checks(&v)).unwrap_err();
    assert_eq!(error.code(), "power_range");
    assert_eq!(session.state().layers[0].name, before);
    assert!(!session.state().dirty);
    // no extra undo point: the only one (from the setup) removes the rectangle
    assert!(session.undo());
    assert!(session.state().shapes.is_empty());
    assert!(!session.undo());
}

#[test]
fn minimale_leistung_ueber_maximaler_wird_abgewiesen() {
    let mut session = clean_session_with_rect();
    let mut v = valid_values();
    v.min_power_pct = 80.0;
    v.power_pct = 50.0;
    let error = session.set_layer_params(0, valid_params(), checks(&v)).unwrap_err();
    assert_eq!(error.code(), "power_order");
    assert!(!session.state().dirty);
}

#[test]
fn nicht_positive_geschwindigkeit_wird_abgewiesen() {
    let mut session = clean_session_with_rect();
    let mut v = valid_values();
    v.speed_mm_s = 0.0;
    let error = session.set_layer_params(0, valid_params(), checks(&v)).unwrap_err();
    assert_eq!(error.code(), "speed_invalid");
    assert!(!session.state().dirty);
    assert!(session.undo());
    assert!(session.state().shapes.is_empty());
    assert!(!session.undo());
}

#[test]
fn parameter_setzen_bei_ungueltigem_index_liefert_fehler() {
    let mut session = clean_session_with_rect();
    let error = session.set_layer_params(9, valid_params(), checks(&valid_values())).unwrap_err();
    assert_eq!(error.code(), "layer_not_found");
    assert!(!session.state().dirty);
}

#[test]
fn image_layer_kann_nicht_zu_vektor_umgewandelt_werden() {
    let mut session = image_session();
    let mut params = valid_params();
    params.mode = LayerMode::Cut;
    let error = session.set_layer_params(0, params, checks(&valid_values())).unwrap_err();
    assert_eq!(error.code(), "image_layer_mode");
    assert_eq!(error.message(), "Ein Bild-Layer kann nicht in einen Vektor-Layer umgewandelt werden.");
    assert_eq!(session.state().layers[0].mode, LayerMode::Image);
    assert!(!session.state().dirty);
}

#[test]
fn vektor_layer_kann_nicht_versehentlich_image_werden() {
    let mut session = clean_session_with_rect();
    let mut params = valid_params();
    params.mode = LayerMode::Image;
    let error = session.set_layer_params(0, params, checks(&valid_values())).unwrap_err();
    assert_eq!(error.code(), "image_layer_mode");
    assert!(!session.state().dirty);
}

#[test]
fn image_layer_darf_seine_bildparameter_aendern() {
    let mut session = image_session();
    let mut params = LayerParams::from_layer(&session.state().layers[0]);
    let mut v = valid_values();
    v.dpi = 508.0;
    params.laser_params = 508;
    params.bidirectional = false;
    session.set_layer_params(0, params, checks(&v)).unwrap();
    assert_eq!(session.state().layers[0].laser_params, 508);
    assert!(!session.state().layers[0].bidirectional);
    assert_eq!(session.state().layers[0].mode, LayerMode::Image);
}

#[test]
fn cut_layer_mit_altem_null_wert_bleibt_speicherbar() {
    let mut session = session_with_rect();
    let mut v = valid_values();
    v.dpi = 0.0;
    v.line_step_mm = 0.0;
    let mut params = valid_params();
    params.mode = LayerMode::Cut;
    session.set_layer_params(0, params, checks(&v)).unwrap();
    assert_eq!(session.state().layers[0].mode, LayerMode::Cut);
}

#[test]
fn fill_layer_verlangt_positiven_zeilenabstand() {
    let mut session = clean_session_with_rect();
    let mut v = valid_values();
    v.line_step_mm = 0.0;
    let mut params = valid_params();
    params.mode = LayerMode::Fill;
    let error = session.set_layer_params(0, params, checks(&v)).unwrap_err();
    assert_eq!(error.code(), "line_step_invalid");
    assert!(!session.state().dirty);
}

#[test]
fn raster_layer_verlangt_positive_dpi() {
    let mut session = clean_session_with_rect();
    let mut v = valid_values();
    v.dpi = 0.0;
    let mut params = valid_params();
    params.mode = LayerMode::Raster;
    let error = session.set_layer_params(0, params, checks(&v)).unwrap_err();
    assert_eq!(error.code(), "dpi_invalid");
    assert!(!session.state().dirty);
}

#[test]
fn nan_werte_gelten_als_ungueltig_und_mutieren_nicht() {
    let cases: Vec<(Values, LayerMode, &str)> = vec![
        (Values { speed_mm_s: f64::NAN, ..valid_values() }, LayerMode::Cut, "speed_invalid"),
        (Values { power_pct: f64::NAN, ..valid_values() }, LayerMode::Cut, "power_range"),
        (Values { line_step_mm: f64::NAN, ..valid_values() }, LayerMode::Fill, "line_step_invalid"),
        (Values { dpi: f64::NAN, ..valid_values() }, LayerMode::Raster, "dpi_invalid"),
    ];
    for (v, mode, code) in cases {
        let mut params = valid_params();
        params.name = "NaN".to_string();
        params.mode = mode;
        let mut session = clean_session_with_rect();
        let error = session.set_layer_params(0, params, checks(&v)).unwrap_err();
        assert_eq!(error.code(), code);
        assert!(!session.state().dirty);
        assert_ne!(session.state().layers[0].name, "NaN");
    }
}

#[test]
fn passes_below_one_are_refused() {
    let mut session = clean_session_with_rect();
    let mut params = valid_params();
    params.passes = 0;
    let error = session.set_layer_params(0, params, checks(&valid_values())).unwrap_err();
    assert_eq!(error.code(), "passes_invalid");
    assert_eq!(error.message(), "Es muss mindestens ein Durchlauf ausgeführt werden.");
}

fn good_pattern() -> PatternChecks {
    PatternChecks { gaps_positive: true, size_positive: true, angle_finite: true }
}

#[test]
fn pattern_fill_fuellt_geschlossene_kontur_auf_eigenem_layer() {
    let mut session = session_with_rect();
    let layers_before = session.state().layers.len();
    let shapes_before = session.state().shapes.len();
    // the caller computed three line elements inside the rectangle
    session.pattern_fill(Pattern::Lines, good_pattern(), &vec![40, 41, 42]).unwrap();
    assert_eq!(session.state().shapes.len(), shapes_before + 3);
    assert_eq!(session.state().layers.len(), layers_before + 1);
    let layer = &session.state().layers[layers_before];
    assert_eq!(layer.name, "Muster");
    assert_ne!(layer.color, session.state().layers[0].color, "first free palette colour");
    assert_eq!(session.state().selected, vec![1, 2, 3]);
    assert!(session.state().shapes[1..].iter().all(|s| s.layer_id == layers_before));
    assert!(session.undo());
    assert_eq!(session.state().shapes.len(), shapes_before);
    assert_eq!(session.state().layers.len(), layers_before);
}

#[test]
fn pattern_fill_weist_fehler_stabil_ab() {
    let mut state = AppState::new();
    state.add_shape(1);
    state.clear_selection();
    let mut session = EditorSession::new(state);
    let err = session.pattern_fill(Pattern::Lines, good_pattern(), &vec![7]).unwrap_err();
    assert_eq!(err.code(), "selection_required");

    let mut session = session_with_rect();
    let bad_gap = PatternChecks { gaps_positive: false, ..good_pattern() };
    let err = session.pattern_fill(Pattern::Lines, bad_gap, &vec![7]).unwrap_err();
    assert_eq!(err.code(), "pattern_gap");

    let bad_size = PatternChecks { size_positive: false, ..good_pattern() };
    let err = session.pattern_fill(Pattern::Circles, bad_size, &vec![7]).unwrap_err();
    assert_eq!(err.code(), "pattern_size");
    // lines have no element size
    let mut lines = session_with_rect();
    assert!(lines.pattern_fill(Pattern::Lines, bad_size, &vec![7]).is_ok());

    let bad_angle = PatternChecks { angle_finite: false, ..good_pattern() };
    let err = session.pattern_fill(Pattern::Hex, bad_angle, &vec![7]).unwrap_err();
    assert_eq!(err.code(), "pattern_angle");

    // an open contour gives nothing to fill
    let shapes_before = session.state().shapes.len();
    let err = session.pattern_fill(Pattern::Lines, good_pattern(), &vec![]).unwrap_err();
    assert_eq!(err.code(), "pattern_no_closed");
    assert_eq!(session.state().shapes.len(), shapes_before);
}
