use luxifer::enums::MoveKind;
use luxifer::job::JobPlan;
use luxifer::model::LayerMode;
use luxifer::preview::{preview_moves, PlanLayer, PlanPath, PlanWork, PreviewMove};
use luxifer::state::AppState;

const RECT: u64 = 1;

fn state_one_rect() -> AppState {
    let mut s = AppState::new();
    s.add_shape(RECT);
    s
}

fn cut_layer(layer_id: usize, paths: Vec<(Vec<u64>, bool)>) -> PlanLayer {
    PlanLayer {
        layer_id,
        work: PlanWork::Cut {
            paths: paths
                .into_iter()
                .map(|(points, closed)| PlanPath { points, closed })
                .collect(),
        },
    }
}

fn kinds(moves: &[PreviewMove]) -> Vec<MoveKind> {
    moves.iter().map(|m| m.kind).collect()
}

#[test]
fn job_rechteck_wird_ein_cut_block() {
    let s = state_one_rect();
    let plan = JobPlan::from_shapes(&s.shapes, &s.layers);
    assert_eq!(plan.layers.len(), 1);
    assert_eq!(plan.layers[0].layer_id, 0);
    assert_eq!(plan.layers[0].shapes, vec![0]);
    assert!(!plan.layers[0].filled);
    assert_eq!(plan.layers[0].color, s.layers[0].color);
    assert_eq!(plan.layers[0].passes, 1);
}

#[test]
fn deaktivierter_layer_wird_uebersprungen() {
    let mut s = state_one_rect();
    s.layers[0].enabled = false;
    let plan = JobPlan::from_shapes(&s.shapes, &s.layers);
    assert!(plan.is_empty());
}

#[test]
fn unsichtbarer_aber_aktivierter_layer_wird_gebrannt() {
    let mut s = state_one_rect();
    s.layers[0].visible = false;
    s.layers[0].enabled = true;
    let plan = JobPlan::from_shapes(&s.shapes, &s.layers);
    assert!(!plan.is_empty(), "unsichtbarer aktivierter Layer brennt");
}

#[test]
fn job_fill_layer_ist_gefuellt_und_leere_layer_fehlen() {
    let mut s = state_one_rect();
    s.selected.clear();
    s.activate_color([10, 0, 0]);
    s.add_shape(2);
    s.selected.clear();
    s.activate_color([0, 20, 0]);
    s.add_shape(3);
    s.layers[1].mode = LayerMode::Fill;
    // Der dritte Layer verliert seine Form.
    s.shapes[2].layer_id = 0;
    let plan = JobPlan::from_shapes(&s.shapes, &s.layers);
    assert_eq!(plan.layers.len(), 2);
    assert_eq!(plan.layers[0].layer_id, 0);
    assert_eq!(plan.layers[0].shapes, vec![0, 2]);
    assert_eq!(plan.layers[1].layer_id, 1);
    assert!(plan.layers[1].filled);
}

#[test]
fn leerer_plan_ohne_layer() {
    let plan = JobPlan::from_shapes(&vec![], &vec![]);
    assert!(plan.is_empty());
    assert!(preview_moves(&vec![]).unwrap().is_empty());
}

#[test]
fn rechteck_cut_ergibt_vier_geschlossene_segmente() {
    let moves = preview_moves(&vec![cut_layer(0, vec![(vec![0, 1, 2, 3], true)])]).unwrap();
    assert_eq!(kinds(&moves), vec![MoveKind::Cut; 4]);
    assert_eq!(moves[3].from, 3);
    assert_eq!(moves[3].to, 0);
    assert!(!moves.iter().any(|m| m.kind == MoveKind::Travel));
}

#[test]
fn offener_pfad_schliesst_nicht() {
    let moves = preview_moves(&vec![cut_layer(0, vec![(vec![5, 6, 7], false), (vec![9], true)])]).unwrap();
    assert_eq!(moves.len(), 2);
    assert_eq!((moves[0].from, moves[0].to), (5, 6));
    assert_eq!((moves[1].from, moves[1].to), (6, 7));
}

#[test]
fn seq_ist_lueckenlos_und_aufsteigend() {
    let moves = preview_moves(&vec![cut_layer(
        0,
        vec![(vec![0, 1, 2, 3], true), (vec![4, 5], false)],
    )]).unwrap();
    for (i, m) in moves.iter().enumerate() {
        assert_eq!(m.seq as usize, i, "seq muss 0..n lückenlos sein");
    }
}

#[test]
fn zwei_getrennte_pfade_erzeugen_travel_dazwischen() {
    let moves = preview_moves(&vec![cut_layer(
        0,
        vec![(vec![0, 1, 2, 3], true), (vec![4, 5, 6, 7], true)],
    )]).unwrap();
    let travels: Vec<&PreviewMove> = moves.iter().filter(|m| m.kind == MoveKind::Travel).collect();
    assert_eq!(travels.len(), 1, "eine Leerfahrt zwischen den Konturen");
    assert_eq!(travels[0].from, 0, "Ende der ersten Kontur");
    assert_eq!(travels[0].to, 4, "Start der zweiten Kontur");
    assert_eq!(moves.len(), 9);
    assert_eq!(moves[4].kind, MoveKind::Travel);
}

#[test]
fn anschliessender_pfad_braucht_keine_leerfahrt() {
    let moves = preview_moves(&vec![cut_layer(0, vec![(vec![0, 1], false), (vec![1, 2], false)])]).unwrap();
    assert_eq!(kinds(&moves), vec![MoveKind::Cut, MoveKind::Cut]);
}

#[test]
fn reihenfolge_folgt_layer_reihenfolge() {
    let mut s = AppState::new();
    s.selected.clear();
    s.activate_color([10, 0, 0]);
    s.add_shape(RECT);
    s.selected.clear();
    s.activate_color([0, 20, 0]);
    s.add_shape(2);
    let before = JobPlan::from_shapes(&s.shapes, &s.layers);
    assert_eq!(before.layers[0].shapes, vec![0]);
    s.move_layer(1, 0);
    let after = JobPlan::from_shapes(&s.shapes, &s.layers);
    assert_eq!(after.layers[0].layer_id, 0);
    assert_eq!(after.layers[0].shapes, vec![1]);
    assert_eq!(s.layers[0].color, [0, 20, 0]);
}

#[test]
fn fill_layer_erzeugt_fill_segmente() {
    let layers = vec![
        PlanLayer { layer_id: 0, work: PlanWork::Fill { segments: vec![(0, 1), (2, 3)] } },
        cut_layer(1, vec![(vec![3, 4], false)]),
    ];
    let moves = preview_moves(&layers).unwrap();
    assert_eq!(
        kinds(&moves),
        vec![MoveKind::Fill, MoveKind::Travel, MoveKind::Fill, MoveKind::Cut]
    );
    assert_eq!(moves[1].layer_id, 0);
    assert_eq!((moves[1].from, moves[1].to), (1, 2));
    assert_eq!(moves[3].layer_id, 1);
}

#[test]
fn gesperrter_layer_wird_nicht_gebrannt() {
    let mut s = state_one_rect();
    s.layers[0].locked = true;
    let plan = JobPlan::from_shapes(&s.shapes, &s.layers);
    assert!(plan.is_empty());
}
